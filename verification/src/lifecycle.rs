//! The lifecycle controller: the four mutating commands, each specified as a
//! transition function on the store's view and implemented as a verified
//! function that performs exactly that transition. A failing guard leaves the
//! store untouched.

use vstd::prelude::*;
use vstd::pervasive::VecAdditionalExecFns;

use crate::error::{ContractError, EntityKind};
use crate::hub::{ids_ascending_u32, ids_ascending_u64, HubView, SubscriptionHub};
use crate::msg::{ExecuteMsg, ExecuteResponse};
use crate::owner_index::{
    lemma_owner_append_membership, lemma_owner_find, owner_append, owner_append_entry,
    owner_index_append,
};
use crate::plan_index::subscribers_view;
use crate::state::{Organization, SubscriptionPlan};

verus! {

/// The state after `CreateOrganization`: the record is appended under the
/// next id, an empty plan list is set up for it, and the id joins the
/// caller's organization list. The command always succeeds.
pub open spec fn create_organization_tr(
    v: HubView,
    sender: String,
    name: String,
    description: String,
    website: Option<String>,
    metadata: Option<Vec<(String, String)>>,
) -> HubView {
    let org = Organization { owner: sender, name, description, website, metadata };
    HubView {
        organizations: v.organizations.push(org),
        organization_plans: v.organization_plans.push(Seq::empty()),
        owner_organizations: owner_append(
            v.owner_organizations,
            sender,
            (v.organizations.len() + 1) as u32,
        ),
        ..v
    }
}

/// Creates an organization owned by the caller. Always succeeds; the new id
/// is one above the previous organization count.
pub fn execute_create_organization(
    hub: &mut SubscriptionHub,
    sender: String,
    name: String,
    description: String,
    website: Option<String>,
    metadata: Option<Vec<(String, String)>>,
) -> (r: Result<ExecuteResponse, ContractError>)
    requires
        old(hub)@.wf(),
        old(hub)@.organizations.len() < u32::MAX,
    ensures
        final(hub)@ == create_organization_tr(
            old(hub)@,
            sender,
            name,
            description,
            website,
            metadata,
        ),
        final(hub)@.wf(),
        r == Result::<ExecuteResponse, ContractError>::Ok(
            ExecuteResponse::OrganizationCreated {
                organization_id: (old(hub)@.organizations.len() + 1) as u32,
            },
        ),
{
    let ghost v = old(hub)@;
    let organization_id: u32 = (hub.organizations.len() as u32) + 1;
    let organization = Organization {
        owner: sender.clone(),
        name,
        description,
        website,
        metadata,
    };
    let ghost org_spec = organization;
    hub.organizations.push(organization);
    hub.organization_plans.push(Vec::new());
    owner_index_append(&mut hub.owner_organizations, sender, organization_id);
    let ghost v2 = hub@;
    proof {
        assert(v2.organization_plans =~= v.organization_plans.push(Seq::empty()));
        assert(v2 == create_organization_tr(v, sender, name, description, website, metadata)) by {
            assert(v2.organizations =~= v.organizations.push(org_spec));
        }
        lemma_create_organization_wf(v, sender, name, description, website, metadata);
    }
    Ok(ExecuteResponse::OrganizationCreated { organization_id })
}

/// `CreateOrganization` preserves well-formedness.
proof fn lemma_create_organization_wf(
    v: HubView,
    sender: String,
    name: String,
    description: String,
    website: Option<String>,
    metadata: Option<Vec<(String, String)>>,
)
    requires
        v.wf(),
        v.organizations.len() < u32::MAX,
    ensures
        create_organization_tr(v, sender, name, description, website, metadata).wf(),
{
    let v2 = create_organization_tr(v, sender, name, description, website, metadata);
    let id = (v.organizations.len() + 1) as u32;
    lemma_owner_find(v.owner_organizations, sender@);
    lemma_owner_append_membership(v.owner_organizations, sender, id);
    let special = owner_append_entry(v.owner_organizations, sender, id);
    // the written entry's ids are valid, ascending and owned by the sender
    assert(ids_ascending_u32(special.1) && forall|k: int|
        0 <= k < special.1.len() ==> v2.org_id_ok(#[trigger] special.1[k]) && v2.org_of(
            special.1[k],
        ).owner@ == special.0@) by {
        let f = crate::owner_index::owner_find(v.owner_organizations, sender@);
        if f < v.owner_organizations.len() {
            assert(special == (v.owner_organizations[f].0, v.owner_organizations[f].1.push(id)));
            assert forall|k: int| 0 <= k < special.1.len() implies v2.org_id_ok(
                #[trigger] special.1[k],
            ) && v2.org_of(special.1[k]).owner@ == special.0@ by {
                if k < special.1.len() - 1 {
                    assert(special.1[k] == v.owner_organizations[f].1[k]);
                } else {
                    assert(special.1[k] == id);
                    assert(v2.org_of(id).owner@ == sender@);
                }
            }
            assert forall|a: int, b: int| 0 <= a < b < special.1.len() implies special.1[a]
                < special.1[b] by {
                if b < special.1.len() - 1 {
                    assert(ids_ascending_u32(v.owner_organizations[f].1));
                } else {
                    assert(special.1[a] == v.owner_organizations[f].1[a]);
                    assert(v.org_id_ok(v.owner_organizations[f].1[a]));
                }
            }
        } else {
            assert(special.1 =~= seq![id]);
        }
    }
    assert forall|i: int| 0 <= i < v2.owner_organizations.len() implies ids_ascending_u32(
        (#[trigger] v2.owner_organizations[i]).1,
    ) by {
        let e = v2.owner_organizations[i];
        if e != special {
            let j = choose|j: int|
                0 <= j < v.owner_organizations.len() && e == v.owner_organizations[j];
            assert(ids_ascending_u32(v.owner_organizations[j].1));
        }
    }
    assert forall|i: int, k: int|
        0 <= i < v2.owner_organizations.len() && 0 <= k
            < v2.owner_organizations[i].1.len() implies {
        let oid = #[trigger] v2.owner_organizations[i].1[k];
        &&& v2.org_id_ok(oid)
        &&& v2.org_of(oid).owner@ == v2.owner_organizations[i].0@
    } by {
        let e = v2.owner_organizations[i];
        if e == special {
        } else {
            let j = choose|j: int|
                0 <= j < v.owner_organizations.len() && e == v.owner_organizations[j];
            assert(v.org_id_ok(v.owner_organizations[j].1[k]));
        }
    }
    assert forall|o: int, k: int|
        0 <= o < v2.organization_plans.len() && 0 <= k
            < v2.organization_plans[o].len() implies {
        let pid = #[trigger] v2.organization_plans[o][k];
        &&& v2.plan_id_ok(pid)
        &&& v2.plan_of(pid).organization_id == o + 1
    } by {
        assert(o < v.organization_plans.len());
        assert(v2.organization_plans[o] == v.organization_plans[o]);
    }
    assert forall|o: int| 0 <= o < v2.organization_plans.len() implies ids_ascending_u64(
        #[trigger] v2.organization_plans[o],
    ) by {
        if o < v.organization_plans.len() {
            assert(v2.organization_plans[o] == v.organization_plans[o]);
        } else {
            assert(v2.organization_plans[o] =~= Seq::<u64>::empty());
        }
    }
}

/// The state and result of `CreateSubscriptionPlan`: rejected when the
/// organization is unknown or the caller does not own it; otherwise the plan
/// is appended under the next id, an empty subscriber index is set up for it,
/// and the id joins the organization's plan list.
pub open spec fn create_subscription_plan_tr(
    v: HubView,
    sender: String,
    organization_id: u32,
    name: String,
    description: String,
    price: u128,
    duration: u8,
    duration_unit: crate::state::DurationUnit,
    features: Option<Vec<String>>,
    metadata: Option<Vec<(String, String)>>,
    cancelable: bool,
    refundable: bool,
) -> (HubView, Result<ExecuteResponse, ContractError>) {
    if !v.org_id_ok(organization_id) {
        (
            v,
            Result::Err(
                ContractError::NotFound {
                    kind: EntityKind::Organization,
                    id: organization_id as u64,
                },
            ),
        )
    } else if sender@ != v.org_of(organization_id).owner@ {
        (v, Result::Err(ContractError::Unauthorized))
    } else {
        let plan = SubscriptionPlan {
            organization_id,
            name,
            description,
            price,
            duration,
            duration_unit,
            features,
            metadata,
            cancelable,
            refundable,
        };
        let id = (v.plans.len() + 1) as u64;
        let post = HubView {
            plans: v.plans.push(plan),
            plan_subscribers: v.plan_subscribers.push(Seq::empty()),
            organization_plans: v.organization_plans.update(
                organization_id - 1,
                v.organization_plans[organization_id - 1].push(id),
            ),
            ..v
        };
        (
            post,
            Result::Ok(ExecuteResponse::SubscriptionPlanCreated { subscription_plan_id: id }),
        )
    }
}

/// Creates a subscription plan for an organization the caller owns. Fails
/// with `NotFound` when the organization does not exist and `Unauthorized`
/// when the caller is not its owner; otherwise succeeds with the next id.
pub fn execute_create_subscription_plan(
    hub: &mut SubscriptionHub,
    sender: String,
    organization_id: u32,
    name: String,
    description: String,
    price: u128,
    duration: u8,
    duration_unit: crate::state::DurationUnit,
    features: Option<Vec<String>>,
    metadata: Option<Vec<(String, String)>>,
    cancelable: bool,
    refundable: bool,
) -> (r: Result<ExecuteResponse, ContractError>)
    requires
        old(hub)@.wf(),
        old(hub)@.plans.len() < u64::MAX,
    ensures
        final(hub)@ == create_subscription_plan_tr(
            old(hub)@,
            sender,
            organization_id,
            name,
            description,
            price,
            duration,
            duration_unit,
            features,
            metadata,
            cancelable,
            refundable,
        ).0,
        r == create_subscription_plan_tr(
            old(hub)@,
            sender,
            organization_id,
            name,
            description,
            price,
            duration,
            duration_unit,
            features,
            metadata,
            cancelable,
            refundable,
        ).1,
        final(hub)@.wf(),
{
    let ghost v = old(hub)@;
    if organization_id < 1 || (organization_id as usize) > hub.organizations.len() {
        return Err(
            ContractError::NotFound { kind: EntityKind::Organization, id: organization_id as u64 },
        );
    }
    let org_index: usize = (organization_id - 1) as usize;
    if hub.organizations[org_index].owner != sender {
        return Err(ContractError::Unauthorized);
    }
    let subscription_plan_id: u64 = (hub.plans.len() as u64) + 1;
    let plan = SubscriptionPlan {
        organization_id,
        name,
        description,
        price,
        duration,
        duration_unit,
        features,
        metadata,
        cancelable,
        refundable,
    };
    let ghost plan_spec = plan;
    hub.plans.push(plan);
    hub.plan_subscribers.push(Vec::new());
    let mut org_plans: Vec<u64> = Vec::new();
    hub.organization_plans.set_and_swap(org_index, &mut org_plans);
    org_plans.push(subscription_plan_id);
    hub.organization_plans.set_and_swap(org_index, &mut org_plans);
    let ghost v2 = hub@;
    proof {
        let post = create_subscription_plan_tr(
            v,
            sender,
            organization_id,
            name,
            description,
            price,
            duration,
            duration_unit,
            features,
            metadata,
            cancelable,
            refundable,
        ).0;
        assert(v2.plan_subscribers =~~= v.plan_subscribers.push(Seq::empty()));
        assert(v2.organization_plans =~= v.organization_plans.update(
            organization_id - 1,
            v.organization_plans[organization_id - 1].push(subscription_plan_id),
        ));
        assert(v2 == post) by {
            assert(v2.plans =~= v.plans.push(plan_spec));
        }
        lemma_create_subscription_plan_wf(v, organization_id, plan_spec);
    }
    Ok(ExecuteResponse::SubscriptionPlanCreated { subscription_plan_id })
}

/// A successful `CreateSubscriptionPlan` preserves well-formedness.
proof fn lemma_create_subscription_plan_wf(v: HubView, organization_id: u32, plan: SubscriptionPlan)
    requires
        v.wf(),
        v.plans.len() < u64::MAX,
        v.org_id_ok(organization_id),
        plan.organization_id == organization_id,
    ensures
        (HubView {
            plans: v.plans.push(plan),
            plan_subscribers: v.plan_subscribers.push(Seq::empty()),
            organization_plans: v.organization_plans.update(
                organization_id - 1,
                v.organization_plans[organization_id - 1].push((v.plans.len() + 1) as u64),
            ),
            ..v
        }).wf(),
{
    let id = (v.plans.len() + 1) as u64;
    let v2 = HubView {
        plans: v.plans.push(plan),
        plan_subscribers: v.plan_subscribers.push(Seq::empty()),
        organization_plans: v.organization_plans.update(
            organization_id - 1,
            v.organization_plans[organization_id - 1].push(id),
        ),
        ..v
    };
    let oi = organization_id - 1;
    assert forall|o: int| 0 <= o < v2.organization_plans.len() implies ids_ascending_u64(
        #[trigger] v2.organization_plans[o],
    ) by {
        if o != oi {
            assert(v2.organization_plans[o] == v.organization_plans[o]);
        } else {
            let ids = v2.organization_plans[o];
            assert forall|a: int, b: int| 0 <= a < b < ids.len() implies ids[a] < ids[b] by {
                if b < ids.len() - 1 {
                    assert(ids_ascending_u64(v.organization_plans[o]));
                } else {
                    assert(ids[a] == v.organization_plans[o][a]);
                    assert(v.plan_id_ok(v.organization_plans[o][a]));
                }
            }
        }
    }
    assert forall|o: int, k: int|
        0 <= o < v2.organization_plans.len() && 0 <= k
            < v2.organization_plans[o].len() implies {
        let pid = #[trigger] v2.organization_plans[o][k];
        &&& v2.plan_id_ok(pid)
        &&& v2.plan_of(pid).organization_id == o + 1
    } by {
        if o != oi {
            assert(v2.organization_plans[o] == v.organization_plans[o]);
            assert(v.plan_id_ok(v.organization_plans[o][k]));
        } else {
            if k < v2.organization_plans[o].len() - 1 {
                assert(v2.organization_plans[o][k] == v.organization_plans[o][k]);
                assert(v.plan_id_ok(v.organization_plans[o][k]));
            } else {
                assert(v2.organization_plans[o][k] == id);
            }
        }
    }
    assert forall|p: int| 0 <= p < v2.plan_subscribers.len() implies
        crate::plan_index::subscribers_sorted(#[trigger] v2.plan_subscribers[p]) by {
        if p < v.plan_subscribers.len() {
            assert(v2.plan_subscribers[p] == v.plan_subscribers[p]);
        } else {
            assert(v2.plan_subscribers[p] =~= Seq::<(Seq<u8>, u64)>::empty());
        }
    }
    assert forall|p: int, k: int|
        0 <= p < v2.plan_subscribers.len() && 0 <= k < v2.plan_subscribers[p].len() implies {
        let entry = #[trigger] v2.plan_subscribers[p][k];
        &&& v2.sub_id_ok(entry.1)
        &&& v2.sub_of(entry.1).plan_id == p + 1
        &&& crate::keys::addr_bytes(v2.sub_of(entry.1).subscriber@) == entry.0
        &&& !v2.sub_of(entry.1).canceled
        &&& v2.current_subscription(v2.sub_of(entry.1).subscriber@, (p + 1) as u64)
            == Option::Some(entry.1)
    } by {
        assert(p < v.plan_subscribers.len());
        assert(v2.plan_subscribers[p] == v.plan_subscribers[p]);
    }
}

/// The new subscription record a successful `SubscribePlan` writes.
pub open spec fn new_subscription(v: HubView, sender: String, now: u64, plan_id: u64)
    -> crate::state::Subscription {
    let plan = v.plan_of(plan_id);
    crate::state::Subscription {
        subscriber: sender,
        plan_id,
        expiration: crate::state::spec_expiration(now, plan.duration, plan.duration_unit) as u64,
        canceled: false,
    }
}

/// The state after a successful `SubscribePlan`: the record is appended
/// under the next id and both index sides are set to point at it.
pub open spec fn subscribe_apply(v: HubView, sender: String, now: u64, plan_id: u64) -> HubView {
    let id = (v.subscriptions.len() + 1) as u64;
    HubView {
        subscriptions: v.subscriptions.push(new_subscription(v, sender, now, plan_id)),
        user_subscriptions: crate::user_index::user_upsert(
            v.user_subscriptions,
            sender,
            plan_id,
            id,
        ),
        plan_subscribers: v.plan_subscribers.update(
            plan_id - 1,
            crate::plan_index::key_upsert(
                v.plan_subscribers[plan_id - 1],
                crate::keys::addr_bytes(sender@),
                id,
            ),
        ),
        ..v
    }
}

/// The state and result of `SubscribePlan`: rejected when the plan is
/// unknown or the caller already holds an active subscription to it;
/// otherwise a new subscription is recorded under the next id, expiring
/// `duration` units after `now`.
pub open spec fn subscribe_plan_tr(v: HubView, sender: String, now: u64, plan_id: u64) -> (
    HubView,
    Result<ExecuteResponse, ContractError>,
) {
    if !v.plan_id_ok(plan_id) {
        (
            v,
            Result::Err(ContractError::NotFound { kind: EntityKind::SubscriptionPlan, id: plan_id }),
        )
    } else if v.is_subscribed(sender@, plan_id, now) {
        (v, Result::Err(ContractError::AlreadySubscribed))
    } else {
        (
            subscribe_apply(v, sender, now, plan_id),
            Result::Ok(
                ExecuteResponse::PlanSubscribed {
                    organization_id: v.plan_of(plan_id).organization_id,
                    subscription_plan_id: plan_id,
                    subscription_id: (v.subscriptions.len() + 1) as u64,
                },
            ),
        )
    }
}

/// Subscribes the caller to a plan. Fails with `NotFound` when the plan does
/// not exist and `AlreadySubscribed` while the caller's current subscription
/// to it is active; a canceled or expired one is superseded by the new
/// record.
pub fn execute_subscribe_plan(hub: &mut SubscriptionHub, sender: String, now: u64, plan_id: u64)
    -> (r: Result<ExecuteResponse, ContractError>)
    requires
        old(hub)@.wf(),
        old(hub)@.subscriptions.len() < u64::MAX,
        old(hub)@.plan_id_ok(plan_id) ==> crate::state::spec_expiration(
            now,
            old(hub)@.plan_of(plan_id).duration,
            old(hub)@.plan_of(plan_id).duration_unit,
        ) <= u64::MAX,
    ensures
        final(hub)@ == subscribe_plan_tr(old(hub)@, sender, now, plan_id).0,
        r == subscribe_plan_tr(old(hub)@, sender, now, plan_id).1,
        final(hub)@.wf(),
{
    let ghost v = old(hub)@;
    if plan_id < 1 || plan_id > hub.plans.len() as u64 {
        return Err(ContractError::NotFound { kind: EntityKind::SubscriptionPlan, id: plan_id });
    }
    let plan_index: usize = (plan_id - 1) as usize;
    let organization_id = hub.plans[plan_index].organization_id;
    let duration = hub.plans[plan_index].duration;
    let duration_unit = hub.plans[plan_index].duration_unit;
    let expiration = crate::state::expiration_time(now, duration, &duration_unit);

    // the caller must not already hold an active subscription to this plan
    match crate::user_index::user_subs_lookup(&hub.user_subscriptions, &sender, plan_id) {
        Some(existing_id) => {
            proof {
                lemma_current_subscription_ok(v, sender@, plan_id, existing_id);
                assert(hub.subscriptions.len() == hub.subscriptions@.len());
                assert(existing_id - 1 < hub.subscriptions@.len());
            }
            let existing_index: usize = (existing_id - 1) as usize;
            let existing = &hub.subscriptions[existing_index];
            proof {
                assert(*existing == v.sub_of(existing_id));
            }
            if !existing.canceled && existing.expiration > now {
                proof {
                    assert(v.is_subscribed(sender@, plan_id, now));
                }
                return Err(ContractError::AlreadySubscribed);
            }
            proof {
                assert(!v.is_subscribed(sender@, plan_id, now));
            }
        },
        None => {
            proof {
                assert(!v.is_subscribed(sender@, plan_id, now));
            }
        },
    }

    let subscription_id: u64 = (hub.subscriptions.len() as u64) + 1;
    let record = crate::state::Subscription {
        subscriber: sender.clone(),
        plan_id,
        expiration,
        canceled: false,
    };
    let ghost record_spec = record;
    hub.subscriptions.push(record);
    crate::user_index::user_subs_upsert(
        &mut hub.user_subscriptions,
        sender.clone(),
        plan_id,
        subscription_id,
    );
    let key = crate::keys::addr_key(sender.as_str());
    let ghost key_spec = key@;
    let mut entries: Vec<crate::plan_index::SubscriberEntry> = Vec::new();
    hub.plan_subscribers.set_and_swap(plan_index, &mut entries);
    proof {
        assert(subscribers_view(entries@) == v.plan_subscribers[plan_id - 1]);
    }
    crate::plan_index::subscriber_upsert(&mut entries, key, subscription_id);
    hub.plan_subscribers.set_and_swap(plan_index, &mut entries);
    let ghost v2 = hub@;
    proof {
        assert(record_spec == new_subscription(v, sender, now, plan_id));
        assert(key_spec == crate::keys::addr_bytes(sender@));
        assert(v2.user_subscriptions == crate::user_index::user_upsert(
            v.user_subscriptions,
            sender,
            plan_id,
            subscription_id,
        ));
        assert(v2.plan_subscribers =~= v.plan_subscribers.update(
            plan_id - 1,
            crate::plan_index::key_upsert(
                v.plan_subscribers[plan_id - 1],
                crate::keys::addr_bytes(sender@),
                subscription_id,
            ),
        ));
        assert(v2 == subscribe_apply(v, sender, now, plan_id)) by {
            assert(v2.subscriptions =~= v.subscriptions.push(record_spec));
        }
        lemma_subscribe_wf(v, sender, now, plan_id);
    }
    Ok(
        ExecuteResponse::PlanSubscribed {
            organization_id,
            subscription_plan_id: plan_id,
            subscription_id,
        },
    )
}

/// An id the user index holds resolves to a record of that user and plan.
pub proof fn lemma_current_subscription_ok(v: HubView, user: Seq<char>, plan_id: u64, id: u64)
    requires
        v.wf(),
        v.current_subscription(user, plan_id) == Option::Some(id),
    ensures
        v.sub_id_ok(id),
        v.sub_of(id).plan_id == plan_id,
        v.sub_of(id).subscriber@ == user,
{
    crate::user_index::lemma_user_find(v.user_subscriptions, user);
    let uf = crate::user_index::user_find(v.user_subscriptions, user);
    assert(uf < v.user_subscriptions.len());
    let subs = v.user_subscriptions[uf].1;
    crate::user_index::lemma_plan_find(subs, plan_id);
    let pf = crate::user_index::plan_find(subs, plan_id);
    assert(pf < subs.len());
    assert(subs[pf].subscription_id == id && subs[pf].plan_id == plan_id);
}

/// A successful `SubscribePlan` preserves well-formedness.
pub proof fn lemma_subscribe_wf(v: HubView, sender: String, now: u64, plan_id: u64)
    requires
        v.wf(),
        v.subscriptions.len() < u64::MAX,
        v.plan_id_ok(plan_id),
    ensures
        subscribe_apply(v, sender, now, plan_id).wf(),
{
    let v2 = subscribe_apply(v, sender, now, plan_id);
    let id = (v.subscriptions.len() + 1) as u64;
    let sub = new_subscription(v, sender, now, plan_id);
    let kb = crate::keys::addr_bytes(sender@);
    let pi = plan_id - 1;
    let old_users = v.user_subscriptions;
    let new_users = v2.user_subscriptions;
    crate::user_index::lemma_user_find(old_users, sender@);
    crate::user_index::lemma_user_upsert_wf(old_users, sender, plan_id, id);
    crate::user_index::lemma_user_upsert_membership(old_users, sender, plan_id, id);
    crate::user_index::lemma_user_upsert_lookup(old_users, sender, plan_id, id);
    let special = crate::user_index::user_upsert_entry(old_users, sender, plan_id, id);
    let uf = crate::user_index::user_find(old_users, sender@);

    // the user index still resolves: old pairs kept their records, and the
    // new pair points at the new record
    assert(special.0@ == sender@);
    if uf < old_users.len() {
        crate::user_index::lemma_plan_upsert_membership(old_users[uf].1, plan_id, id);
    }
    assert forall|i: int, k: int|
        0 <= i < new_users.len() && 0 <= k < new_users[i].1.len() implies {
        let pair = #[trigger] new_users[i].1[k];
        &&& v2.plan_id_ok(pair.plan_id)
        &&& v2.sub_id_ok(pair.subscription_id)
        &&& v2.sub_of(pair.subscription_id).plan_id == pair.plan_id
        &&& v2.sub_of(pair.subscription_id).subscriber@ == new_users[i].0@
    } by {
        let e = new_users[i];
        let pair = new_users[i].1[k];
        let fresh = crate::user_index::PlanSub { plan_id, subscription_id: id };
        if e == special {
            if uf < old_users.len() {
                assert(special.1 == crate::user_index::plan_upsert(old_users[uf].1, plan_id, id));
                if pair == fresh {
                    assert(v2.sub_of(id) == sub);
                } else {
                    let j = choose|j: int|
                        0 <= j < old_users[uf].1.len() && pair == old_users[uf].1[j];
                    assert(v.sub_id_ok(pair.subscription_id));
                    assert(v2.sub_of(pair.subscription_id) == v.sub_of(pair.subscription_id));
                }
            } else {
                assert(special.1 =~= seq![fresh]);
                assert(pair == fresh);
                assert(v2.sub_of(id) == sub);
            }
        } else {
            let j = choose|j: int| 0 <= j < old_users.len() && e == old_users[j];
            assert(v.sub_id_ok(old_users[j].1[k].subscription_id));
            assert(v2.sub_of(pair.subscription_id) == v.sub_of(pair.subscription_id));
        }
    }

    // the subscriber index of the plan stays sorted; others are untouched
    crate::plan_index::lemma_key_upsert_sorted(v.plan_subscribers[pi], kb, id);
    assert forall|p: int| 0 <= p < v2.plan_subscribers.len() implies
        crate::plan_index::subscribers_sorted(#[trigger] v2.plan_subscribers[p]) by {
        if p != pi {
            assert(v2.plan_subscribers[p] == v.plan_subscribers[p]);
        }
    }

    // every subscriber-index entry still resolves to the current record
    crate::plan_index::lemma_key_upsert_membership(v.plan_subscribers[pi], kb, id);
    crate::plan_index::lemma_key_upsert_lookup(v.plan_subscribers[pi], kb, id);
    assert forall|p: int, k: int|
        0 <= p < v2.plan_subscribers.len() && 0 <= k < v2.plan_subscribers[p].len() implies {
        let entry = #[trigger] v2.plan_subscribers[p][k];
        &&& v2.sub_id_ok(entry.1)
        &&& v2.sub_of(entry.1).plan_id == p + 1
        &&& crate::keys::addr_bytes(v2.sub_of(entry.1).subscriber@) == entry.0
        &&& !v2.sub_of(entry.1).canceled
        &&& v2.current_subscription(v2.sub_of(entry.1).subscriber@, (p + 1) as u64)
            == Option::Some(entry.1)
    } by {
        let entry = v2.plan_subscribers[p][k];
        if p == pi {
            let upserted = crate::plan_index::key_upsert(v.plan_subscribers[pi], kb, id);
            assert(v2.plan_subscribers[p] == upserted);
            if entry == (kb, id) {
                assert(v2.sub_of(id) == sub);
                assert(v2.current_subscription(sender@, plan_id) == Option::Some(id));
            } else {
                if entry.0 == kb {
                    // a sorted index holds one entry per key, and that key's
                    // entry is the upserted one
                    crate::plan_index::lemma_sorted_lookup_self(upserted, k);
                    assert(false);
                }
                let j = choose|j: int|
                    0 <= j < v.plan_subscribers[pi].len() && entry == v.plan_subscribers[pi][j];
                assert(v.sub_id_ok(entry.1));
                assert(v2.sub_of(entry.1) == v.sub_of(entry.1));
                // the entry's subscriber differs from the sender, so its
                // current-subscription pointer is untouched
                assert(v.sub_of(entry.1).subscriber@ != sender@) by {
                    if v.sub_of(entry.1).subscriber@ == sender@ {
                        assert(crate::keys::addr_bytes(v.sub_of(entry.1).subscriber@) == kb);
                    }
                }
            }
        } else {
            assert(v2.plan_subscribers[p] == v.plan_subscribers[p]);
            let e0 = v.plan_subscribers[p][k];
            assert(v.sub_id_ok(e0.1));
            assert(v2.sub_of(e0.1) == v.sub_of(e0.1));
            assert(v.sub_of(e0.1).plan_id == p + 1);
            assert((p + 1) as u64 != plan_id);
            assert(v2.current_subscription(v.sub_of(e0.1).subscriber@, (p + 1) as u64)
                == v.current_subscription(v.sub_of(e0.1).subscriber@, (p + 1) as u64));
        }
    }
}

/// The state after a successful `CancelPlan`: the record's `canceled` flag
/// flips and the plan's subscriber-index entry is removed. The user index is
/// left pointing at the canceled record, so a later re-subscribe can detect
/// it and supersede it.
pub open spec fn cancel_apply(v: HubView, subscription_id: u64) -> HubView {
    let sub = v.sub_of(subscription_id);
    HubView {
        subscriptions: v.subscriptions.update(
            subscription_id - 1,
            crate::state::Subscription { canceled: true, ..sub },
        ),
        plan_subscribers: v.plan_subscribers.update(
            sub.plan_id - 1,
            crate::plan_index::key_remove(
                v.plan_subscribers[sub.plan_id - 1],
                crate::keys::addr_bytes(sub.subscriber@),
            ),
        ),
        ..v
    }
}

/// The state and result of `CancelPlan`: rejected when the subscription is
/// unknown, the caller is not its subscriber, its plan forbids cancellation,
/// it was already canceled, or it has already expired — in this guard order;
/// otherwise the record is marked canceled.
pub open spec fn cancel_plan_tr(v: HubView, sender: String, now: u64, subscription_id: u64) -> (
    HubView,
    Result<ExecuteResponse, ContractError>,
) {
    if !v.sub_id_ok(subscription_id) {
        (
            v,
            Result::Err(
                ContractError::NotFound { kind: EntityKind::Subscription, id: subscription_id },
            ),
        )
    } else {
        let sub = v.sub_of(subscription_id);
        let plan = v.plan_of(sub.plan_id);
        if sender@ != sub.subscriber@ {
            (v, Result::Err(ContractError::Unauthorized))
        } else if !plan.cancelable {
            (v, Result::Err(ContractError::NotCancelable))
        } else if sub.canceled {
            (v, Result::Err(ContractError::AlreadyCanceled))
        } else if now > sub.expiration {
            (v, Result::Err(ContractError::AlreadyExpired))
        } else {
            (
                cancel_apply(v, subscription_id),
                Result::Ok(ExecuteResponse::PlanCanceled { subscription_id }),
            )
        }
    }
}

/// Cancels one of the caller's subscriptions. The guards run in the order
/// `NotFound`, `Unauthorized`, `NotCancelable`, `AlreadyCanceled`,
/// `AlreadyExpired`; cancellation at exactly the expiration time is allowed.
pub fn execute_cancel_plan(hub: &mut SubscriptionHub, sender: String, now: u64, subscription_id: u64)
    -> (r: Result<ExecuteResponse, ContractError>)
    requires
        old(hub)@.wf(),
    ensures
        final(hub)@ == cancel_plan_tr(old(hub)@, sender, now, subscription_id).0,
        r == cancel_plan_tr(old(hub)@, sender, now, subscription_id).1,
        final(hub)@.wf(),
{
    let ghost v = old(hub)@;
    if subscription_id < 1 || subscription_id > hub.subscriptions.len() as u64 {
        return Err(
            ContractError::NotFound { kind: EntityKind::Subscription, id: subscription_id },
        );
    }
    proof {
        assert(hub.subscriptions.len() == hub.subscriptions@.len());
    }
    let sub_index: usize = (subscription_id - 1) as usize;
    let sub_plan_id = hub.subscriptions[sub_index].plan_id;
    proof {
        assert(hub.subscriptions@[sub_index as int] == v.sub_of(subscription_id));
        assert(v.plan_id_ok(sub_plan_id));
        assert(hub.plans.len() == hub.plans@.len());
    }
    let plan_index: usize = (sub_plan_id - 1) as usize;
    let cancelable = hub.plans[plan_index].cancelable;
    proof {
        assert(cancelable == v.plan_of(sub_plan_id).cancelable);
    }
    if hub.subscriptions[sub_index].subscriber != sender {
        return Err(ContractError::Unauthorized);
    }
    if !cancelable {
        return Err(ContractError::NotCancelable);
    }
    if hub.subscriptions[sub_index].canceled {
        return Err(ContractError::AlreadyCanceled);
    }
    if now > hub.subscriptions[sub_index].expiration {
        return Err(ContractError::AlreadyExpired);
    }
    let mut record = hub.subscriptions[sub_index].duplicate();
    record.canceled = true;
    let ghost record_spec = record;
    hub.subscriptions.set(sub_index, record);
    let key = crate::keys::addr_key(sender.as_str());
    proof {
        assert(key@ == crate::keys::addr_bytes(v.sub_of(subscription_id).subscriber@));
    }
    let mut entries: Vec<crate::plan_index::SubscriberEntry> = Vec::new();
    hub.plan_subscribers.set_and_swap(plan_index, &mut entries);
    proof {
        assert(subscribers_view(entries@) == v.plan_subscribers[sub_plan_id - 1]);
    }
    crate::plan_index::subscriber_remove(&mut entries, &key);
    hub.plan_subscribers.set_and_swap(plan_index, &mut entries);
    let ghost v2 = hub@;
    proof {
        assert(record_spec == (crate::state::Subscription {
            canceled: true,
            ..v.sub_of(subscription_id)
        }));
        assert(v2.plan_subscribers =~= v.plan_subscribers.update(
            sub_plan_id - 1,
            crate::plan_index::key_remove(
                v.plan_subscribers[sub_plan_id - 1],
                crate::keys::addr_bytes(v.sub_of(subscription_id).subscriber@),
            ),
        ));
        assert(v2 == cancel_apply(v, subscription_id)) by {
            assert(v2.subscriptions =~= v.subscriptions.update(
                subscription_id - 1,
                record_spec,
            ));
        }
        lemma_cancel_wf(v, subscription_id);
    }
    Ok(ExecuteResponse::PlanCanceled { subscription_id })
}

/// A successful `CancelPlan` preserves well-formedness.
pub proof fn lemma_cancel_wf(v: HubView, subscription_id: u64)
    requires
        v.wf(),
        v.sub_id_ok(subscription_id),
    ensures
        cancel_apply(v, subscription_id).wf(),
{
    let v2 = cancel_apply(v, subscription_id);
    let sub = v.sub_of(subscription_id);
    let kb = crate::keys::addr_bytes(sub.subscriber@);
    let pi = sub.plan_id - 1;
    assert(v.plan_id_ok(sub.plan_id));
    crate::plan_index::lemma_key_remove_sorted(v.plan_subscribers[pi], kb);
    crate::plan_index::lemma_key_remove_lookup(v.plan_subscribers[pi], kb);
    crate::plan_index::lemma_key_remove_membership(v.plan_subscribers[pi], kb);
    assert forall|p: int| 0 <= p < v2.plan_subscribers.len() implies
        crate::plan_index::subscribers_sorted(#[trigger] v2.plan_subscribers[p]) by {
        if p != pi {
            assert(v2.plan_subscribers[p] == v.plan_subscribers[p]);
        }
    }
    // the user index still resolves: only the canceled flag changed
    assert forall|i: int, k: int|
        0 <= i < v2.user_subscriptions.len() && 0 <= k
            < v2.user_subscriptions[i].1.len() implies {
        let pair = #[trigger] v2.user_subscriptions[i].1[k];
        &&& v2.plan_id_ok(pair.plan_id)
        &&& v2.sub_id_ok(pair.subscription_id)
        &&& v2.sub_of(pair.subscription_id).plan_id == pair.plan_id
        &&& v2.sub_of(pair.subscription_id).subscriber@ == v2.user_subscriptions[i].0@
    } by {
        let pair = v.user_subscriptions[i].1[k];
        assert(v.sub_id_ok(pair.subscription_id));
        if pair.subscription_id == subscription_id {
            assert(v2.sub_of(pair.subscription_id).plan_id == sub.plan_id);
            assert(v2.sub_of(pair.subscription_id).subscriber == sub.subscriber);
        } else {
            assert(v2.sub_of(pair.subscription_id) == v.sub_of(pair.subscription_id));
        }
    }
    // every remaining subscriber-index entry still resolves: the removed key
    // was the only one whose record was touched
    assert forall|p: int, k: int|
        0 <= p < v2.plan_subscribers.len() && 0 <= k < v2.plan_subscribers[p].len() implies {
        let entry = #[trigger] v2.plan_subscribers[p][k];
        &&& v2.sub_id_ok(entry.1)
        &&& v2.sub_of(entry.1).plan_id == p + 1
        &&& crate::keys::addr_bytes(v2.sub_of(entry.1).subscriber@) == entry.0
        &&& !v2.sub_of(entry.1).canceled
        &&& v2.current_subscription(v2.sub_of(entry.1).subscriber@, (p + 1) as u64)
            == Option::Some(entry.1)
    } by {
        let entry = v2.plan_subscribers[p][k];
        if p == pi {
            let removed = crate::plan_index::key_remove(v.plan_subscribers[pi], kb);
            assert(v2.plan_subscribers[p] == removed);
            if entry.0 == kb {
                crate::plan_index::lemma_sorted_lookup_self(removed, k);
                assert(false);
            }
            let j = choose|j: int|
                0 <= j < v.plan_subscribers[pi].len() && entry == v.plan_subscribers[pi][j];
            assert(v.sub_id_ok(entry.1));
            assert(entry.1 != subscription_id) by {
                if entry.1 == subscription_id {
                    assert(crate::keys::addr_bytes(v.sub_of(entry.1).subscriber@) == kb);
                }
            }
            assert(v2.sub_of(entry.1) == v.sub_of(entry.1));
        } else {
            assert(v2.plan_subscribers[p] == v.plan_subscribers[p]);
            assert(v.sub_id_ok(entry.1));
            assert(entry.1 != subscription_id) by {
                if entry.1 == subscription_id {
                    assert(v.sub_of(entry.1).plan_id == p + 1);
                }
            }
            assert(v2.sub_of(entry.1) == v.sub_of(entry.1));
        }
    }
}

/// The machine limits a command needs so its fresh id and expiration stay
/// representable. Everything else is guarded inside the transition itself.
pub open spec fn execute_msg_ok(v: HubView, now: u64, msg: ExecuteMsg) -> bool {
    match msg {
        ExecuteMsg::CreateOrganization { .. } => v.organizations.len() < u32::MAX,
        ExecuteMsg::CreateSubscriptionPlan { .. } => v.plans.len() < u64::MAX,
        ExecuteMsg::SubscribePlan { plan_id } => v.subscriptions.len() < u64::MAX && (v.plan_id_ok(
            plan_id,
        ) ==> crate::state::spec_expiration(
            now,
            v.plan_of(plan_id).duration,
            v.plan_of(plan_id).duration_unit,
        ) <= u64::MAX),
        ExecuteMsg::CancelPlan { .. } => true,
    }
}

/// The state and result of any command: the closed dispatch over the four
/// transitions.
pub open spec fn execute_tr(v: HubView, sender: String, now: u64, msg: ExecuteMsg) -> (
    HubView,
    Result<ExecuteResponse, ContractError>,
) {
    match msg {
        ExecuteMsg::CreateOrganization { name, description, website, metadata } => (
            create_organization_tr(v, sender, name, description, website, metadata),
            Result::Ok(
                ExecuteResponse::OrganizationCreated {
                    organization_id: (v.organizations.len() + 1) as u32,
                },
            ),
        ),
        ExecuteMsg::CreateSubscriptionPlan {
            organization_id,
            name,
            description,
            price,
            duration,
            duration_unit,
            features,
            metadata,
            cancelable,
            refundable,
        } => create_subscription_plan_tr(
            v,
            sender,
            organization_id,
            name,
            description,
            price,
            duration,
            duration_unit,
            features,
            metadata,
            cancelable,
            refundable,
        ),
        ExecuteMsg::SubscribePlan { plan_id } => subscribe_plan_tr(v, sender, now, plan_id),
        ExecuteMsg::CancelPlan { subscription_id } => cancel_plan_tr(
            v,
            sender,
            now,
            subscription_id,
        ),
    }
}

/// Runs one command against the store: the single entry point for mutation.
/// `sender` is the authenticated caller and `now` the request's clock
/// snapshot. On an error the store is exactly as it was.
pub fn execute(hub: &mut SubscriptionHub, sender: String, now: u64, msg: ExecuteMsg) -> (r: Result<
    ExecuteResponse,
    ContractError,
>)
    requires
        old(hub)@.wf(),
        execute_msg_ok(old(hub)@, now, msg),
    ensures
        final(hub)@ == execute_tr(old(hub)@, sender, now, msg).0,
        r == execute_tr(old(hub)@, sender, now, msg).1,
        final(hub)@.wf(),
{
    match msg {
        ExecuteMsg::CreateOrganization { name, description, website, metadata } => {
            execute_create_organization(hub, sender, name, description, website, metadata)
        },
        ExecuteMsg::CreateSubscriptionPlan {
            organization_id,
            name,
            description,
            price,
            duration,
            duration_unit,
            features,
            metadata,
            cancelable,
            refundable,
        } => execute_create_subscription_plan(
            hub,
            sender,
            organization_id,
            name,
            description,
            price,
            duration,
            duration_unit,
            features,
            metadata,
            cancelable,
            refundable,
        ),
        ExecuteMsg::SubscribePlan { plan_id } => execute_subscribe_plan(hub, sender, now, plan_id),
        ExecuteMsg::CancelPlan { subscription_id } => execute_cancel_plan(
            hub,
            sender,
            now,
            subscription_id,
        ),
    }
}

} // verus!
