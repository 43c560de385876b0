//! The store the engine runs over: the three entity collections, their
//! secondary indexes and the identifier counters, as one explicit value, with
//! the well-formedness invariant every operation preserves.
//!
//! Identifiers are dense: the record with id `n` sits at position `n - 1` of
//! its collection, so each counter is the collection's length.

use vstd::prelude::*;

use crate::keys::addr_bytes;
use crate::msg::InstantiateMsg;
use crate::owner_index::{owners_distinct, owners_view, OwnerOrgsEntry};
use crate::plan_index::{subscribers_sorted, subscribers_view, SubscriberEntry};
use crate::state::{Config, Organization, Subscription, SubscriptionPlan};
use crate::user_index::{
    user_plan_lookup, users_distinct, users_sorted, users_view, PlanSub, UserSubsEntry,
};

verus! {

/// The whole store: entity collections, indexes and configuration.
pub struct SubscriptionHub {
    /// The contract configuration.
    pub config: Config,
    /// Organization records; id `n` sits at position `n - 1`.
    pub organizations: Vec<Organization>,
    /// For each owner address, the ids of its organizations, oldest first.
    pub owner_organizations: Vec<OwnerOrgsEntry>,
    /// Plan records; id `n` sits at position `n - 1`.
    pub plans: Vec<SubscriptionPlan>,
    /// For each organization, the ids of its plans, oldest first; parallel to
    /// `organizations`.
    pub organization_plans: Vec<Vec<u64>>,
    /// Subscription records; id `n` sits at position `n - 1`. Never deleted.
    pub subscriptions: Vec<Subscription>,
    /// For each user, the current subscription id per plan.
    pub user_subscriptions: Vec<UserSubsEntry>,
    /// For each plan, the subscriber index; parallel to `plans`. An entry is
    /// removed on cancellation and re-inserted on re-subscription.
    pub plan_subscribers: Vec<Vec<SubscriberEntry>>,
}

/// The store's mathematical shape, over which every contract speaks.
#[verifier::ext_equal]
pub ghost struct HubView {
    pub admin: String,
    pub organizations: Seq<Organization>,
    pub owner_organizations: Seq<(String, Seq<u32>)>,
    pub plans: Seq<SubscriptionPlan>,
    pub organization_plans: Seq<Seq<u64>>,
    pub subscriptions: Seq<Subscription>,
    pub user_subscriptions: Seq<(String, Seq<PlanSub>)>,
    pub plan_subscribers: Seq<Seq<(Seq<u8>, u64)>>,
}

impl View for SubscriptionHub {
    type V = HubView;

    open spec fn view(&self) -> HubView {
        HubView {
            admin: self.config.admin,
            organizations: self.organizations@,
            owner_organizations: owners_view(self.owner_organizations@),
            plans: self.plans@,
            organization_plans: self.organization_plans@.map_values(|ids: Vec<u64>| ids@),
            subscriptions: self.subscriptions@,
            user_subscriptions: users_view(self.user_subscriptions@),
            plan_subscribers: self.plan_subscribers@.map_values(
                |entries: Vec<SubscriberEntry>| subscribers_view(entries@),
            ),
        }
    }
}

/// Whether a sequence of u32 ids is strictly ascending.
pub open spec fn ids_ascending_u32(ids: Seq<u32>) -> bool {
    forall|a: int, b: int| 0 <= a < b < ids.len() ==> #[trigger] ids[a] < #[trigger] ids[b]
}

/// Whether a sequence of u64 ids is strictly ascending.
pub open spec fn ids_ascending_u64(ids: Seq<u64>) -> bool {
    forall|a: int, b: int| 0 <= a < b < ids.len() ==> #[trigger] ids[a] < #[trigger] ids[b]
}

impl HubView {
    /// Whether an organization with this id exists.
    pub open spec fn org_id_ok(self, id: u32) -> bool {
        1 <= id <= self.organizations.len()
    }

    /// Whether a plan with this id exists.
    pub open spec fn plan_id_ok(self, id: u64) -> bool {
        1 <= id <= self.plans.len()
    }

    /// Whether a subscription with this id exists.
    pub open spec fn sub_id_ok(self, id: u64) -> bool {
        1 <= id <= self.subscriptions.len()
    }

    /// The organization record with the given id.
    pub open spec fn org_of(self, id: u32) -> Organization {
        self.organizations[id - 1]
    }

    /// The plan record with the given id.
    pub open spec fn plan_of(self, id: u64) -> SubscriptionPlan {
        self.plans[id - 1]
    }

    /// The subscription record with the given id.
    pub open spec fn sub_of(self, id: u64) -> Subscription {
        self.subscriptions[id - 1]
    }

    /// The id of the current subscription of `user` to `plan_id`, if the
    /// index holds one. It may point at a canceled or expired record.
    pub open spec fn current_subscription(self, user: Seq<char>, plan_id: u64) -> Option<u64> {
        user_plan_lookup(self.user_subscriptions, user, plan_id)
    }

    /// Whether `user` holds an active subscription to `plan_id` at `now`:
    /// the current record is not canceled and expires strictly after `now`.
    pub open spec fn is_subscribed(self, user: Seq<char>, plan_id: u64, now: u64) -> bool {
        match self.current_subscription(user, plan_id) {
            Option::Some(id) => {
                let s = self.sub_of(id);
                !s.canceled && s.expiration > now
            },
            Option::None => false,
        }
    }

    /// The well-formedness invariant: ids stay representable, the parallel
    /// index collections track their entity collections, and every index
    /// entry resolves to a matching primary record.
    pub open spec fn wf(self) -> bool {
        &&& self.organizations.len() <= u32::MAX
        &&& self.plans.len() <= u64::MAX
        &&& self.subscriptions.len() <= u64::MAX
        &&& self.organization_plans.len() == self.organizations.len()
        &&& self.plan_subscribers.len() == self.plans.len()
        // every plan belongs to an existing organization
        &&& forall|i: int|
            0 <= i < self.plans.len() ==> self.org_id_ok(#[trigger] self.plans[i].organization_id)
        // every subscription is to an existing plan
        &&& forall|i: int|
            0 <= i < self.subscriptions.len() ==> self.plan_id_ok(
                #[trigger] self.subscriptions[i].plan_id,
            )
        // the owner index: one entry per owner, ids ascending, and each id
        // resolves to an organization of that owner
        &&& owners_distinct(self.owner_organizations)
        &&& forall|i: int|
            0 <= i < self.owner_organizations.len() ==> ids_ascending_u32(
                (#[trigger] self.owner_organizations[i]).1,
            )
        &&& forall|i: int, k: int|
            0 <= i < self.owner_organizations.len() && 0 <= k
                < self.owner_organizations[i].1.len() ==> {
                let id = #[trigger] self.owner_organizations[i].1[k];
                &&& self.org_id_ok(id)
                &&& self.org_of(id).owner@ == self.owner_organizations[i].0@
            }
        // the plan list of each organization: ids ascending, each resolving
        // to a plan of that organization
        &&& forall|o: int|
            0 <= o < self.organization_plans.len() ==> ids_ascending_u64(
                #[trigger] self.organization_plans[o],
            )
        &&& forall|o: int, k: int|
            0 <= o < self.organization_plans.len() && 0 <= k
                < self.organization_plans[o].len() ==> {
                let id = #[trigger] self.organization_plans[o][k];
                &&& self.plan_id_ok(id)
                &&& self.plan_of(id).organization_id == o + 1
            }
        // the user index: one entry per user, pair lists sorted, and each
        // pair resolves to a subscription of that user to that plan
        &&& users_distinct(self.user_subscriptions)
        &&& users_sorted(self.user_subscriptions)
        &&& forall|i: int, k: int|
            0 <= i < self.user_subscriptions.len() && 0 <= k
                < self.user_subscriptions[i].1.len() ==> {
                let pair = #[trigger] self.user_subscriptions[i].1[k];
                &&& self.plan_id_ok(pair.plan_id)
                &&& self.sub_id_ok(pair.subscription_id)
                &&& self.sub_of(pair.subscription_id).plan_id == pair.plan_id
                &&& self.sub_of(pair.subscription_id).subscriber@
                    == self.user_subscriptions[i].0@
            }
        // the subscriber index of each plan: sorted by key, and each entry
        // resolves to the current, uncanceled subscription for its key
        &&& forall|p: int|
            0 <= p < self.plan_subscribers.len() ==> subscribers_sorted(
                #[trigger] self.plan_subscribers[p],
            )
        &&& forall|p: int, k: int|
            0 <= p < self.plan_subscribers.len() && 0 <= k
                < self.plan_subscribers[p].len() ==> {
                let entry = #[trigger] self.plan_subscribers[p][k];
                &&& self.sub_id_ok(entry.1)
                &&& self.sub_of(entry.1).plan_id == p + 1
                &&& addr_bytes(self.sub_of(entry.1).subscriber@) == entry.0
                &&& !self.sub_of(entry.1).canceled
                &&& self.current_subscription(self.sub_of(entry.1).subscriber@, (p + 1) as u64)
                    == Option::Some(entry.1)
            }
    }
}

/// The state a fresh contract starts in: the caller is the admin, every
/// collection is empty and every id counter is zero.
pub open spec fn initial_hub(sender: String) -> HubView {
    HubView {
        admin: sender,
        organizations: Seq::empty(),
        owner_organizations: Seq::empty(),
        plans: Seq::empty(),
        organization_plans: Seq::empty(),
        subscriptions: Seq::empty(),
        user_subscriptions: Seq::empty(),
        plan_subscribers: Seq::empty(),
    }
}

/// Creates the store of a freshly instantiated contract, with the caller as
/// admin.
pub fn instantiate(sender: String, _msg: InstantiateMsg) -> (hub: SubscriptionHub)
    ensures
        hub@ == initial_hub(sender),
        hub@.wf(),
{
    let hub = SubscriptionHub {
        config: Config { admin: sender },
        organizations: Vec::new(),
        owner_organizations: Vec::new(),
        plans: Vec::new(),
        organization_plans: Vec::new(),
        subscriptions: Vec::new(),
        user_subscriptions: Vec::new(),
        plan_subscribers: Vec::new(),
    };
    proof {
        assert(owners_view(hub.owner_organizations@) =~= Seq::<(String, Seq<u32>)>::empty());
        assert(users_view(hub.user_subscriptions@) =~= Seq::<(String, Seq<PlanSub>)>::empty());
        assert(hub.organization_plans@.map_values(|ids: Vec<u64>| ids@) =~= Seq::<
            Seq<u64>,
        >::empty());
        assert(hub.plan_subscribers@.map_values(
            |entries: Vec<SubscriberEntry>| subscribers_view(entries@),
        ) =~= Seq::<Seq<(Seq<u8>, u64)>>::empty());
        assert(hub@ == initial_hub(sender));
    }
    hub
}

} // verus!
