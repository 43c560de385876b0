//! The per-user subscription index: for each user, the list of
//! (plan id, subscription id) pairs kept strictly sorted by plan id. The
//! outer list is keyed by the user's address, one entry per user.

use vstd::prelude::*;
use vstd::pervasive::VecAdditionalExecFns;

verus! {

/// One pair of the inner index: the current subscription id a user holds for
/// a plan.
#[derive(Clone, Copy, Debug, PartialEq, Eq, Structural)]
pub struct PlanSub {
    /// The plan subscribed to.
    pub plan_id: u64,
    /// The id of the most recent subscription for this user and plan.
    pub subscription_id: u64,
}

/// One user's entry: the address and the user's pairs, sorted by plan id.
pub struct UserSubsEntry {
    /// The user's address.
    pub user: String,
    /// The user's (plan id, subscription id) pairs, ascending by plan id.
    pub subs: Vec<PlanSub>,
}

impl View for UserSubsEntry {
    type V = (String, Seq<PlanSub>);

    open spec fn view(&self) -> (String, Seq<PlanSub>) {
        (self.user, self.subs@)
    }
}

/// The outer index as address/pair-list entries.
pub open spec fn users_view(entries: Seq<UserSubsEntry>) -> Seq<(String, Seq<PlanSub>)> {
    entries.map_values(|e: UserSubsEntry| e@)
}

/// The index of the first pair for `plan`, or the length if none is.
pub open spec fn plan_find(subs: Seq<PlanSub>, plan: u64) -> int
    decreases subs.len(),
{
    if subs.len() == 0 {
        0
    } else if subs[0].plan_id == plan {
        0
    } else {
        1 + plan_find(subs.drop_first(), plan)
    }
}

/// What `plan_find` returns: the position of the first pair for `plan`, with
/// no earlier match, or the length if no pair is for `plan`.
pub proof fn lemma_plan_find(subs: Seq<PlanSub>, plan: u64)
    ensures
        0 <= plan_find(subs, plan) <= subs.len(),
        forall|i: int| 0 <= i < plan_find(subs, plan) ==> subs[i].plan_id != plan,
        plan_find(subs, plan) < subs.len() ==> subs[plan_find(subs, plan)].plan_id == plan,
    decreases subs.len(),
{
    if subs.len() > 0 && subs[0].plan_id != plan {
        lemma_plan_find(subs.drop_first(), plan);
        assert forall|i: int| 0 <= i < plan_find(subs, plan) implies subs[i].plan_id != plan by {
            if i > 0 {
                assert(subs.drop_first()[i - 1] == subs[i]);
            }
        }
        if plan_find(subs, plan) < subs.len() {
            assert(subs.drop_first()[plan_find(subs, plan) - 1] == subs[plan_find(subs, plan)]);
        }
    }
}

/// The subscription id a pair list holds for `plan`, if any.
pub open spec fn plan_lookup(subs: Seq<PlanSub>, plan: u64) -> Option<u64> {
    let j = plan_find(subs, plan);
    if j < subs.len() {
        Option::Some(subs[j].subscription_id)
    } else {
        Option::None
    }
}

/// The index of the first pair whose plan id is at least `plan`, or the
/// length if every pair's is smaller: where a pair for `plan` belongs.
pub open spec fn plan_pos(subs: Seq<PlanSub>, plan: u64) -> int
    decreases subs.len(),
{
    if subs.len() == 0 {
        0
    } else if subs[0].plan_id >= plan {
        0
    } else {
        1 + plan_pos(subs.drop_first(), plan)
    }
}

/// What `plan_pos` returns: every earlier pair's plan id is below `plan` and
/// the one at the position, if any, is not.
pub proof fn lemma_plan_pos(subs: Seq<PlanSub>, plan: u64)
    ensures
        0 <= plan_pos(subs, plan) <= subs.len(),
        forall|i: int| 0 <= i < plan_pos(subs, plan) ==> subs[i].plan_id < plan,
        plan_pos(subs, plan) < subs.len() ==> subs[plan_pos(subs, plan)].plan_id >= plan,
    decreases subs.len(),
{
    if subs.len() > 0 && subs[0].plan_id < plan {
        lemma_plan_pos(subs.drop_first(), plan);
        assert forall|i: int| 0 <= i < plan_pos(subs, plan) implies subs[i].plan_id < plan by {
            if i > 0 {
                assert(subs.drop_first()[i - 1] == subs[i]);
            }
        }
        if plan_pos(subs, plan) < subs.len() {
            assert(subs.drop_first()[plan_pos(subs, plan) - 1] == subs[plan_pos(subs, plan)]);
        }
    }
}

/// The pair list with the entry for `plan` set to `id`: overwritten in place
/// when present, inserted at its sort position when not.
pub open spec fn plan_upsert(subs: Seq<PlanSub>, plan: u64, id: u64) -> Seq<PlanSub> {
    let j = plan_find(subs, plan);
    if j < subs.len() {
        subs.update(j, PlanSub { plan_id: plan, subscription_id: id })
    } else {
        subs.insert(plan_pos(subs, plan), PlanSub { plan_id: plan, subscription_id: id })
    }
}

/// Whether the pairs are strictly ascending by plan id.
pub open spec fn plans_sorted(subs: Seq<PlanSub>) -> bool {
    forall|i: int, j: int|
        0 <= i < j < subs.len() ==> #[trigger] subs[i].plan_id < #[trigger] subs[j].plan_id
}

/// Whether a plan id lies strictly after an optional exclusive lower bound.
pub open spec fn plan_after_start(plan: u64, start_after: Option<u64>) -> bool {
    match start_after {
        Option::None => true,
        Option::Some(s) => plan > s,
    }
}

/// The first `limit` pairs whose plan ids lie strictly after `start_after`,
/// in index order.
pub open spec fn plan_page_of(subs: Seq<PlanSub>, start_after: Option<u64>, limit: int) -> Seq<
    PlanSub,
>
    decreases subs.len(),
{
    if subs.len() == 0 || limit <= 0 {
        Seq::empty()
    } else if plan_after_start(subs[0].plan_id, start_after) {
        seq![subs[0]] + plan_page_of(subs.drop_first(), start_after, limit - 1)
    } else {
        plan_page_of(subs.drop_first(), start_after, limit)
    }
}

/// Sets the pair for `plan` to `id` in one user's pair list, keeping it
/// sorted.
#[verifier::loop_isolation(false)]
pub fn plan_subs_upsert(subs: &mut Vec<PlanSub>, plan: u64, id: u64)
    requires
        plans_sorted(old(subs)@),
    ensures
        final(subs)@ == plan_upsert(old(subs)@, plan, id),
        plans_sorted(final(subs)@),
{
    let ghost v = old(subs)@;
    proof {
        lemma_plan_find(v, plan);
        lemma_plan_pos(v, plan);
    }
    let mut i: usize = 0;
    while i < subs.len()
        invariant
            0 <= i <= subs.len(),
            v == subs@,
            forall|j: int| 0 <= j < i ==> v[j].plan_id < plan,
        decreases subs.len() - i,
    {
        let p = subs[i].plan_id;
        if p == plan {
            proof {
                assert(plan_find(v, plan) == i as int);
            }
            subs.set(i, PlanSub { plan_id: plan, subscription_id: id });
            proof {
                assert(subs@ =~= plan_upsert(v, plan, id));
            }
            return ;
        } else if p > plan {
            proof {
                assert forall|j: int| i <= j < v.len() implies v[j].plan_id != plan
                    && v[j].plan_id >= plan by {}
                assert(plan_find(v, plan) == v.len());
                assert(plan_pos(v, plan) == i as int);
            }
            subs.insert(i, PlanSub { plan_id: plan, subscription_id: id });
            proof {
                assert(subs@ =~= plan_upsert(v, plan, id));
                assert forall|a: int, b: int| 0 <= a < b < subs@.len() implies subs@[a].plan_id
                    < subs@[b].plan_id by {
                    let lo = i as int;
                    if a < lo {
                        assert(subs@[a] == v[a]);
                    } else if a > lo {
                        assert(subs@[a] == v[a - 1]);
                    }
                    if b < lo {
                        assert(subs@[b] == v[b]);
                    } else if b > lo {
                        assert(subs@[b] == v[b - 1]);
                    }
                }
            }
            return ;
        }
        i += 1;
    }
    proof {
        assert(plan_find(v, plan) == v.len());
        assert(plan_pos(v, plan) == v.len());
    }
    subs.push(PlanSub { plan_id: plan, subscription_id: id });
    proof {
        assert(subs@ =~= plan_upsert(v, plan, id));
        assert forall|a: int, b: int| 0 <= a < b < subs@.len() implies subs@[a].plan_id
            < subs@[b].plan_id by {
            if b < v.len() {
                assert(subs@[a] == v[a] && subs@[b] == v[b]);
            } else {
                assert(subs@[a] == v[a]);
            }
        }
    }
}

/// Collects up to `limit` pairs whose plan ids lie strictly after
/// `start_after`, in ascending plan order.
#[verifier::loop_isolation(false)]
pub fn plan_subs_page(subs: &Vec<PlanSub>, start_after: Option<u64>, limit: usize) -> (r: Vec<
    PlanSub,
>)
    ensures
        r@ == plan_page_of(subs@, start_after, limit as int),
{
    let ghost v = subs@;
    let mut out: Vec<PlanSub> = Vec::new();
    let mut i: usize = 0;
    proof {
        assert(v.skip(0) =~= v);
    }
    while i < subs.len() && out.len() < limit
        invariant
            0 <= i <= subs.len(),
            v == subs@,
            out@.len() <= limit,
            plan_page_of(v, start_after, limit as int) == out@ + plan_page_of(
                v.skip(i as int),
                start_after,
                limit - out@.len(),
            ),
        decreases subs.len() - i,
    {
        proof {
            assert(v.skip(i as int)[0] == v[i as int]);
            assert(v.skip(i as int).drop_first() =~= v.skip(i + 1));
        }
        let keep = match start_after {
            None => true,
            Some(s) => subs[i].plan_id > s,
        };
        if keep {
            proof {
                let rest = plan_page_of(v.skip(i + 1), start_after, limit - out@.len() - 1);
                assert(plan_page_of(v, start_after, limit as int) == out@ + (seq![v[i as int]]
                    + rest));
                assert(out@ + (seq![v[i as int]] + rest) =~= out@.push(v[i as int]) + rest);
            }
            out.push(subs[i]);
        } else {
            proof {
                assert(plan_page_of(v.skip(i as int), start_after, limit - out@.len())
                    == plan_page_of(v.skip(i + 1), start_after, limit - out@.len()));
            }
        }
        i += 1;
    }
    proof {
        if i == subs.len() {
            assert(v.skip(i as int) =~= Seq::<PlanSub>::empty());
        }
        assert(plan_page_of(v.skip(i as int), start_after, limit - out@.len()) =~= Seq::<
            PlanSub,
        >::empty());
        assert(out@ + Seq::<PlanSub>::empty() =~= out@);
    }
    out
}

/// The index of the first entry for `user`, or the length if none is.
pub open spec fn user_find(entries: Seq<(String, Seq<PlanSub>)>, user: Seq<char>) -> int
    decreases entries.len(),
{
    if entries.len() == 0 {
        0
    } else if entries[0].0@ == user {
        0
    } else {
        1 + user_find(entries.drop_first(), user)
    }
}

/// What `user_find` returns: the position of the first entry for `user`,
/// with no earlier match, or the length if no entry is for `user`.
pub proof fn lemma_user_find(entries: Seq<(String, Seq<PlanSub>)>, user: Seq<char>)
    ensures
        0 <= user_find(entries, user) <= entries.len(),
        forall|i: int| 0 <= i < user_find(entries, user) ==> entries[i].0@ != user,
        user_find(entries, user) < entries.len() ==> entries[user_find(entries, user)].0@ == user,
    decreases entries.len(),
{
    if entries.len() > 0 && entries[0].0@ != user {
        lemma_user_find(entries.drop_first(), user);
        assert forall|i: int| 0 <= i < user_find(entries, user) implies entries[i].0@ != user by {
            if i > 0 {
                assert(entries.drop_first()[i - 1] == entries[i]);
            }
        }
        if user_find(entries, user) < entries.len() {
            assert(entries.drop_first()[user_find(entries, user) - 1] == entries[user_find(
                entries,
                user,
            )]);
        }
    }
}

/// The pair list the index holds for `user`, if any.
pub open spec fn user_lookup(entries: Seq<(String, Seq<PlanSub>)>, user: Seq<char>) -> Option<
    Seq<PlanSub>,
> {
    let j = user_find(entries, user);
    if j < entries.len() {
        Option::Some(entries[j].1)
    } else {
        Option::None
    }
}

/// The subscription id the index holds for `user` and `plan`, if any.
pub open spec fn user_plan_lookup(
    entries: Seq<(String, Seq<PlanSub>)>,
    user: Seq<char>,
    plan: u64,
) -> Option<u64> {
    match user_lookup(entries, user) {
        Option::Some(subs) => plan_lookup(subs, plan),
        Option::None => Option::None,
    }
}

/// The index with `user`'s pair for `plan` set to `id`. An updated entry
/// moves to the back of the outer list; the outer order carries no meaning.
pub open spec fn user_upsert(
    entries: Seq<(String, Seq<PlanSub>)>,
    user: String,
    plan: u64,
    id: u64,
) -> Seq<(String, Seq<PlanSub>)> {
    let j = user_find(entries, user@);
    if j < entries.len() {
        entries.remove(j).push((entries[j].0, plan_upsert(entries[j].1, plan, id)))
    } else {
        entries.push((user, seq![PlanSub { plan_id: plan, subscription_id: id }]))
    }
}

/// Whether the outer entries are for pairwise distinct users.
pub open spec fn users_distinct(entries: Seq<(String, Seq<PlanSub>)>) -> bool {
    forall|i: int, j: int|
        0 <= i < j < entries.len() ==> #[trigger] entries[i].0@ != #[trigger] entries[j].0@
}

/// Whether every user's pair list is sorted.
pub open spec fn users_sorted(entries: Seq<(String, Seq<PlanSub>)>) -> bool {
    forall|i: int| 0 <= i < entries.len() ==> plans_sorted(#[trigger] entries[i].1)
}

/// Finds the position of `user`'s entry in the outer index.
#[verifier::loop_isolation(false)]
pub fn user_subs_find(entries: &Vec<UserSubsEntry>, user: &String) -> (r: Option<usize>)
    ensures
        r matches Some(j) ==> j < entries@.len() && user_find(users_view(entries@), user@)
            == j as int,
        r is None ==> user_find(users_view(entries@), user@) == users_view(entries@).len(),
{
    let ghost v = users_view(entries@);
    proof {
        lemma_user_find(v, user@);
    }
    let mut i: usize = 0;
    while i < entries.len()
        invariant
            0 <= i <= entries.len(),
            v.len() == entries.len(),
            forall|j: int| 0 <= j < i ==> v[j].0@ != user@,
        decreases entries.len() - i,
    {
        proof {
            assert(v[i as int] == entries@[i as int]@);
        }
        if entries[i].user == *user {
            proof {
                assert(v[i as int].0@ == user@);
                assert(user_find(v, user@) == i as int);
            }
            return Some(i);
        }
        i += 1;
    }
    None
}

/// Sets `user`'s pair for `plan` to `id`, creating the user's entry if it is
/// absent.
#[verifier::loop_isolation(false)]
pub fn user_subs_upsert(entries: &mut Vec<UserSubsEntry>, user: String, plan: u64, id: u64)
    requires
        users_distinct(users_view(old(entries)@)),
        users_sorted(users_view(old(entries)@)),
    ensures
        users_view(final(entries)@) == user_upsert(users_view(old(entries)@), user, plan, id),
        users_distinct(users_view(final(entries)@)),
        users_sorted(users_view(final(entries)@)),
{
    let ghost v = users_view(old(entries)@);
    proof {
        lemma_user_find(v, user@);
    }
    match user_subs_find(entries, &user) {
        Some(j) => {
            let mut entry = entries.remove(j);
            proof {
                assert(entry@ == v[j as int]);
                assert(plans_sorted(entry.subs@));
            }
            plan_subs_upsert(&mut entry.subs, plan, id);
            proof {
                assert(entry@ == (v[j as int].0, plan_upsert(v[j as int].1, plan, id)));
            }
            entries.push(entry);
            proof {
                let v2 = users_view(entries@);
                assert(v2 =~= v.remove(j as int).push(
                    (v[j as int].0, plan_upsert(v[j as int].1, plan, id)),
                ));
                assert(v2 =~= user_upsert(v, user, plan, id));
                assert forall|a: int, b: int| 0 <= a < b < v2.len() implies v2[a].0@ != v2[b].0@ by {
                    let n = v2.len() - 1;
                    let lo = j as int;
                    if b < n {
                        if a < lo && b < lo {
                            assert(v2[a] == v[a] && v2[b] == v[b]);
                        } else if a < lo && b >= lo {
                            assert(v2[a] == v[a] && v2[b] == v[b + 1]);
                        } else {
                            assert(v2[a] == v[a + 1] && v2[b] == v[b + 1]);
                        }
                    } else {
                        assert(v2[b].0 == v[lo].0);
                        if a < lo {
                            assert(v2[a] == v[a]);
                        } else {
                            assert(v2[a] == v[a + 1]);
                        }
                    }
                }
                assert forall|a: int| 0 <= a < v2.len() implies plans_sorted(v2[a].1) by {
                    let n = v2.len() - 1;
                    let lo = j as int;
                    if a < n {
                        if a < lo {
                            assert(v2[a] == v[a]);
                        } else {
                            assert(v2[a] == v[a + 1]);
                        }
                    }
                }
            }
        },
        None => {
            let subs = vec![PlanSub { plan_id: plan, subscription_id: id }];
            proof {
                assert(subs@ =~= seq![PlanSub { plan_id: plan, subscription_id: id }]);
            }
            entries.push(UserSubsEntry { user, subs });
            proof {
                let v2 = users_view(entries@);
                assert(v2 =~= user_upsert(v, user, plan, id));
                assert forall|a: int, b: int| 0 <= a < b < v2.len() implies v2[a].0@ != v2[b].0@ by {
                    if b < v.len() {
                        assert(v2[a] == v[a] && v2[b] == v[b]);
                    } else {
                        assert(v2[a] == v[a]);
                        assert(v2[b].0@ == user@);
                    }
                }
                assert forall|a: int| 0 <= a < v2.len() implies plans_sorted(v2[a].1) by {
                    if a < v.len() {
                        assert(v2[a] == v[a]);
                    }
                }
            }
        },
    }
}

/// Finds the position of the pair for `plan` in one user's pair list.
#[verifier::loop_isolation(false)]
pub fn plan_subs_find(subs: &Vec<PlanSub>, plan: u64) -> (r: Option<usize>)
    ensures
        r matches Some(j) ==> j < subs@.len() && plan_find(subs@, plan) == j as int,
        r is None ==> plan_find(subs@, plan) == subs@.len(),
{
    proof {
        lemma_plan_find(subs@, plan);
    }
    let mut i: usize = 0;
    while i < subs.len()
        invariant
            0 <= i <= subs.len(),
            forall|j: int| 0 <= j < i ==> subs@[j].plan_id != plan,
        decreases subs.len() - i,
    {
        if subs[i].plan_id == plan {
            proof {
                assert(plan_find(subs@, plan) == i as int);
            }
            return Some(i);
        }
        i += 1;
    }
    None
}

/// Looks up the subscription id the index holds for `user` and `plan`.
pub fn user_subs_lookup(entries: &Vec<UserSubsEntry>, user: &String, plan: u64) -> (r: Option<
    u64,
>)
    ensures
        r == user_plan_lookup(users_view(entries@), user@, plan),
{
    proof {
        lemma_user_find(users_view(entries@), user@);
    }
    match user_subs_find(entries, user) {
        Some(j) => {
            proof {
                assert(users_view(entries@)[j as int] == entries@[j as int]@);
            }
            let subs = &entries[j].subs;
            proof {
                lemma_plan_find(subs@, plan);
            }
            match plan_subs_find(subs, plan) {
                Some(p) => Some(subs[p].subscription_id),
                None => None,
            }
        },
        None => None,
    }
}

// The lemmas below relate the operations to the lookup functions: what an
// upsert does to the looked-up id of the touched user and plan, and that
// every other pair is untouched. Callers maintaining invariants over the
// whole index use them.
/// In a sorted pair list, looking a pair's own plan up yields that pair.
pub proof fn lemma_plans_sorted_lookup_self(subs: Seq<PlanSub>, i: int)
    requires
        plans_sorted(subs),
        0 <= i < subs.len(),
    ensures
        plan_lookup(subs, subs[i].plan_id) == Option::Some(subs[i].subscription_id),
{
    lemma_plan_find(subs, subs[i].plan_id);
    let f = plan_find(subs, subs[i].plan_id);
    assert(f == i);
}

/// After an upsert the touched plan holds the new id and every other plan is
/// untouched.
pub proof fn lemma_plan_upsert_lookup(subs: Seq<PlanSub>, plan: u64, id: u64)
    requires
        plans_sorted(subs),
    ensures
        plan_lookup(plan_upsert(subs, plan, id), plan) == Option::Some(id),
        forall|p2: u64|
            p2 != plan ==> plan_lookup(plan_upsert(subs, plan, id), p2) == plan_lookup(subs, p2),
{
    let r = plan_upsert(subs, plan, id);
    let f = plan_find(subs, plan);
    lemma_plan_find(subs, plan);
    lemma_plan_pos(subs, plan);
    if f < subs.len() {
        assert forall|i: int| 0 <= i < r.len() implies r[i].plan_id == subs[i].plan_id by {}
        lemma_plan_find(r, plan);
        assert(plan_find(r, plan) == f);
        assert forall|p2: u64| p2 != plan implies plan_lookup(r, p2) == plan_lookup(subs, p2) by {
            lemma_plan_find(r, p2);
            lemma_plan_find(subs, p2);
            let m = plan_find(subs, p2);
            if m < subs.len() {
                assert(r[m].plan_id == p2);
                assert(plan_find(r, p2) == m);
                assert(m != f);
            } else {
                assert forall|i: int| 0 <= i < r.len() implies r[i].plan_id != p2 by {}
                assert(plan_find(r, p2) == r.len());
            }
        }
    } else {
        let p = plan_pos(subs, plan);
        assert(r == subs.insert(p, PlanSub { plan_id: plan, subscription_id: id }));
        assert forall|i: int| 0 <= i < p implies r[i] == subs[i] && r[i].plan_id != plan by {}
        lemma_plan_find(r, plan);
        assert(r[p].plan_id == plan);
        assert(plan_find(r, plan) == p);
        assert forall|p2: u64| p2 != plan implies plan_lookup(r, p2) == plan_lookup(subs, p2) by {
            lemma_plan_find(r, p2);
            lemma_plan_find(subs, p2);
            let m = plan_find(subs, p2);
            if m < subs.len() {
                let m2 = if m < p {
                    m
                } else {
                    m + 1
                };
                assert(r[m2] == subs[m]);
                assert forall|i: int| 0 <= i < m2 implies r[i].plan_id != p2 by {
                    if i < p {
                        assert(r[i] == subs[i]);
                    } else if i == p {
                        assert(r[i].plan_id == plan);
                    } else {
                        assert(r[i] == subs[i - 1]);
                    }
                }
                assert(plan_find(r, p2) == m2);
            } else {
                assert forall|i: int| 0 <= i < r.len() implies r[i].plan_id != p2 by {
                    if i < p {
                        assert(r[i] == subs[i]);
                    } else if i == p {
                        assert(r[i].plan_id == plan);
                    } else {
                        assert(r[i] == subs[i - 1]);
                    }
                }
                assert(plan_find(r, p2) == r.len());
            }
        }
    }
}

/// Every pair an upsert leaves in a pair list is either an old pair or the
/// upserted one.
pub proof fn lemma_plan_upsert_membership(subs: Seq<PlanSub>, plan: u64, id: u64)
    ensures
        forall|i: int|
            0 <= i < plan_upsert(subs, plan, id).len() ==> (exists|j: int|
                0 <= j < subs.len() && #[trigger] plan_upsert(subs, plan, id)[i] == subs[j])
                || plan_upsert(subs, plan, id)[i] == (PlanSub { plan_id: plan, subscription_id: id }),
{
    let r = plan_upsert(subs, plan, id);
    let f = plan_find(subs, plan);
    lemma_plan_find(subs, plan);
    lemma_plan_pos(subs, plan);
    let p = plan_pos(subs, plan);
    assert forall|i: int|
        0 <= i < r.len() implies (exists|j: int| 0 <= j < subs.len() && #[trigger] r[i] == subs[j])
            || r[i] == PlanSub { plan_id: plan, subscription_id: id } by {
        if f < subs.len() {
            if i != f {
                assert(r[i] == subs[i]);
            }
        } else {
            if i < p {
                assert(r[i] == subs[i]);
            } else if i > p {
                assert(r[i] == subs[i - 1]);
            }
        }
    }
}

/// The entry an upsert writes: the user's updated entry, or a fresh one when
/// the user had none.
pub open spec fn user_upsert_entry(
    entries: Seq<(String, Seq<PlanSub>)>,
    user: String,
    plan: u64,
    id: u64,
) -> (String, Seq<PlanSub>) {
    let j = user_find(entries, user@);
    if j < entries.len() {
        (entries[j].0, plan_upsert(entries[j].1, plan, id))
    } else {
        (user, seq![PlanSub { plan_id: plan, subscription_id: id }])
    }
}

/// Every entry an upsert leaves in the index is either an old entry or the
/// written one.
pub proof fn lemma_user_upsert_membership(
    entries: Seq<(String, Seq<PlanSub>)>,
    user: String,
    plan: u64,
    id: u64,
)
    ensures
        forall|i: int|
            0 <= i < user_upsert(entries, user, plan, id).len() ==> (exists|j: int|
                0 <= j < entries.len() && #[trigger] user_upsert(entries, user, plan, id)[i]
                    == entries[j]) || user_upsert(entries, user, plan, id)[i] == user_upsert_entry(
                entries,
                user,
                plan,
                id,
            ),
{
    let r = user_upsert(entries, user, plan, id);
    let f = user_find(entries, user@);
    lemma_user_find(entries, user@);
    assert forall|i: int|
        0 <= i < r.len() implies (exists|j: int| 0 <= j < entries.len() && #[trigger] r[i]
            == entries[j]) || r[i] == user_upsert_entry(entries, user, plan, id) by {
        if f < entries.len() {
            if i < r.len() - 1 {
                if i < f {
                    assert(r[i] == entries[i]);
                } else {
                    assert(r[i] == entries[i + 1]);
                }
            }
        } else {
            if i < entries.len() {
                assert(r[i] == entries[i]);
            }
        }
    }
}

/// After an upsert the touched user and plan hold the new id and every other
/// user/plan pair is untouched.
pub proof fn lemma_user_upsert_lookup(
    entries: Seq<(String, Seq<PlanSub>)>,
    user: String,
    plan: u64,
    id: u64,
)
    requires
        users_distinct(entries),
        users_sorted(entries),
    ensures
        user_plan_lookup(user_upsert(entries, user, plan, id), user@, plan) == Option::Some(id),
        forall|u2: Seq<char>, p2: u64|
            !(u2 == user@ && p2 == plan) ==> user_plan_lookup(
                user_upsert(entries, user, plan, id),
                u2,
                p2,
            ) == user_plan_lookup(entries, u2, p2),
{
    let r = user_upsert(entries, user, plan, id);
    let f = user_find(entries, user@);
    lemma_user_find(entries, user@);
    if f < entries.len() {
        let updated = (entries[f].0, plan_upsert(entries[f].1, plan, id));
        assert(r == entries.remove(f).push(updated));
        assert(r.len() == entries.len());
        // only the entry at f was for `user`, and it moved to the back
        assert forall|i: int| 0 <= i < r.len() - 1 implies r[i].0@ != user@ by {
            if i < f {
                assert(r[i] == entries[i]);
            } else {
                assert(r[i] == entries[i + 1]);
            }
        }
        lemma_user_find(r, user@);
        assert(r[r.len() - 1].0@ == user@);
        assert(user_find(r, user@) == r.len() - 1);
        assert(user_lookup(r, user@) == Option::Some(plan_upsert(entries[f].1, plan, id)));
        lemma_plan_upsert_lookup(entries[f].1, plan, id);
        assert forall|u2: Seq<char>, p2: u64| !(u2 == user@ && p2 == plan) implies user_plan_lookup(
            r,
            u2,
            p2,
        ) == user_plan_lookup(entries, u2, p2) by {
            if u2 == user@ {
                // same user, different plan: the inner upsert kept it
                assert(user_plan_lookup(r, u2, p2) == plan_lookup(
                    plan_upsert(entries[f].1, plan, id),
                    p2,
                ));
                assert(user_plan_lookup(entries, u2, p2) == plan_lookup(entries[f].1, p2));
            } else {
                lemma_user_find(r, u2);
                lemma_user_find(entries, u2);
                let m = user_find(entries, u2);
                if m < entries.len() {
                    assert(m != f);
                    let m2 = if m < f {
                        m
                    } else {
                        m - 1
                    };
                    assert(r[m2] == entries[m]);
                    assert forall|i: int| 0 <= i < m2 implies r[i].0@ != u2 by {
                        if i < f {
                            assert(r[i] == entries[i]);
                        } else {
                            assert(r[i] == entries[i + 1]);
                        }
                    }
                    assert(user_find(r, u2) == m2);
                } else {
                    assert forall|i: int| 0 <= i < r.len() implies r[i].0@ != u2 by {
                        if i < r.len() - 1 {
                            if i < f {
                                assert(r[i] == entries[i]);
                            } else {
                                assert(r[i] == entries[i + 1]);
                            }
                        } else {
                            assert(r[i].0@ == user@);
                        }
                    }
                    assert(user_find(r, u2) == r.len());
                }
            }
        }
    } else {
        let fresh = (user, seq![PlanSub { plan_id: plan, subscription_id: id }]);
        assert(r == entries.push(fresh));
        assert forall|i: int| 0 <= i < entries.len() implies r[i] == entries[i] && r[i].0@
            != user@ by {}
        lemma_user_find(r, user@);
        assert(r[entries.len() as int].0@ == user@);
        assert(user_find(r, user@) == entries.len());
        assert(plan_lookup(seq![PlanSub { plan_id: plan, subscription_id: id }], plan)
            == Option::Some(id));
        assert forall|u2: Seq<char>, p2: u64| !(u2 == user@ && p2 == plan) implies user_plan_lookup(
            r,
            u2,
            p2,
        ) == user_plan_lookup(entries, u2, p2) by {
            if u2 == user@ {
                assert(user_plan_lookup(entries, u2, p2) == Option::None::<u64>);
                assert(user_find(r, u2) == entries.len());
                assert(user_plan_lookup(r, u2, p2) == plan_lookup(
                    seq![PlanSub { plan_id: plan, subscription_id: id }],
                    p2,
                ));
                let single = seq![PlanSub { plan_id: plan, subscription_id: id }];
                lemma_plan_find(single, p2);
                assert(plan_lookup(single, p2) == Option::None::<u64>);
            } else {
                lemma_user_find(r, u2);
                lemma_user_find(entries, u2);
                let m = user_find(entries, u2);
                if m < entries.len() {
                    assert(r[m] == entries[m]);
                    assert forall|i: int| 0 <= i < m implies r[i].0@ != u2 by {
                        assert(r[i] == entries[i]);
                    }
                    assert(user_find(r, u2) == m);
                } else {
                    assert forall|i: int| 0 <= i < r.len() implies r[i].0@ != u2 by {
                        if i < entries.len() {
                            assert(r[i] == entries[i]);
                        }
                    }
                    assert(user_find(r, u2) == r.len());
                }
            }
        }
    }
}

/// An inner upsert keeps a pair list sorted.
pub proof fn lemma_plan_upsert_sorted(subs: Seq<PlanSub>, plan: u64, id: u64)
    requires
        plans_sorted(subs),
    ensures
        plans_sorted(plan_upsert(subs, plan, id)),
{
    let r = plan_upsert(subs, plan, id);
    let f = plan_find(subs, plan);
    lemma_plan_find(subs, plan);
    lemma_plan_pos(subs, plan);
    if f < subs.len() {
        assert forall|a: int, b: int| 0 <= a < b < r.len() implies r[a].plan_id < r[b].plan_id by {
            assert(r[a].plan_id == subs[a].plan_id);
            assert(r[b].plan_id == subs[b].plan_id);
        }
    } else {
        let p = plan_pos(subs, plan);
        assert(r == subs.insert(p, PlanSub { plan_id: plan, subscription_id: id }));
        assert forall|a: int, b: int| 0 <= a < b < r.len() implies r[a].plan_id < r[b].plan_id by {
            if a < p {
                assert(r[a] == subs[a]);
            } else if a > p {
                assert(r[a] == subs[a - 1]);
            }
            if b < p {
                assert(r[b] == subs[b]);
            } else if b > p {
                assert(r[b] == subs[b - 1]);
            }
        }
    }
}

/// An upsert keeps the outer entries distinct by user and every pair list
/// sorted.
pub proof fn lemma_user_upsert_wf(
    entries: Seq<(String, Seq<PlanSub>)>,
    user: String,
    plan: u64,
    id: u64,
)
    requires
        users_distinct(entries),
        users_sorted(entries),
    ensures
        users_distinct(user_upsert(entries, user, plan, id)),
        users_sorted(user_upsert(entries, user, plan, id)),
{
    let r = user_upsert(entries, user, plan, id);
    let f = user_find(entries, user@);
    lemma_user_find(entries, user@);
    if f < entries.len() {
        lemma_plan_upsert_sorted(entries[f].1, plan, id);
        assert(r == entries.remove(f).push((entries[f].0, plan_upsert(entries[f].1, plan, id))));
        assert forall|a: int, b: int| 0 <= a < b < r.len() implies r[a].0@ != r[b].0@ by {
            let n = r.len() - 1;
            if b < n {
                if a < f && b < f {
                    assert(r[a] == entries[a] && r[b] == entries[b]);
                } else if a < f && b >= f {
                    assert(r[a] == entries[a] && r[b] == entries[b + 1]);
                } else {
                    assert(r[a] == entries[a + 1] && r[b] == entries[b + 1]);
                }
            } else {
                assert(r[b].0 == entries[f].0);
                if a < f {
                    assert(r[a] == entries[a]);
                } else {
                    assert(r[a] == entries[a + 1]);
                }
            }
        }
        assert forall|i: int| 0 <= i < r.len() implies plans_sorted(r[i].1) by {
            if i < r.len() - 1 {
                if i < f {
                    assert(r[i] == entries[i]);
                } else {
                    assert(r[i] == entries[i + 1]);
                }
            }
        }
    } else {
        assert(r == entries.push((user, seq![PlanSub { plan_id: plan, subscription_id: id }])));
        assert forall|a: int, b: int| 0 <= a < b < r.len() implies r[a].0@ != r[b].0@ by {
            if b < entries.len() {
                assert(r[a] == entries[a] && r[b] == entries[b]);
            } else {
                assert(r[a] == entries[a]);
                assert(r[b].0@ == user@);
            }
        }
        assert forall|i: int| 0 <= i < r.len() implies plans_sorted(r[i].1) by {
            if i < entries.len() {
                assert(r[i] == entries[i]);
            } else {
                assert(r[i].1 =~= seq![PlanSub { plan_id: plan, subscription_id: id }]);
            }
        }
    }
}

/// Every pair a page holds is a pair of the list.
pub proof fn lemma_plan_page_membership(subs: Seq<PlanSub>, start_after: Option<u64>, limit: int)
    ensures
        forall|i: int|
            0 <= i < plan_page_of(subs, start_after, limit).len() ==> exists|j: int|
                0 <= j < subs.len() && #[trigger] plan_page_of(subs, start_after, limit)[i]
                    == subs[j],
    decreases subs.len(),
{
    let p = plan_page_of(subs, start_after, limit);
    if subs.len() == 0 || limit <= 0 {
    } else {
        lemma_plan_page_membership(subs.drop_first(), start_after, limit - 1);
        lemma_plan_page_membership(subs.drop_first(), start_after, limit);
        assert forall|i: int|
            0 <= i < p.len() implies exists|j: int| 0 <= j < subs.len() && #[trigger] p[i]
                == subs[j] by {
            if plan_after_start(subs[0].plan_id, start_after) {
                if i == 0 {
                    assert(p[i] == subs[0]);
                } else {
                    let pd = plan_page_of(subs.drop_first(), start_after, limit - 1);
                    assert(p[i] == pd[i - 1]);
                    let j = choose|j: int|
                        0 <= j < subs.drop_first().len() && pd[i - 1] == subs.drop_first()[j];
                    assert(p[i] == subs[j + 1]);
                }
            } else {
                let pd = plan_page_of(subs.drop_first(), start_after, limit);
                assert(p[i] == pd[i]);
                let j = choose|j: int|
                    0 <= j < subs.drop_first().len() && pd[i] == subs.drop_first()[j];
                assert(p[i] == subs[j + 1]);
            }
        }
    }
}

/// A page never exceeds its limit.
pub proof fn lemma_plan_page_bounded(subs: Seq<PlanSub>, start_after: Option<u64>, limit: int)
    requires
        0 <= limit,
    ensures
        plan_page_of(subs, start_after, limit).len() <= limit,
    decreases subs.len(),
{
    if subs.len() == 0 || limit <= 0 {
    } else {
        lemma_plan_page_bounded(subs.drop_first(), start_after, limit - 1);
        lemma_plan_page_bounded(subs.drop_first(), start_after, limit);
    }
}

} // verus!
