//! The query engine: read-only composition over the entity collections and
//! the indexes, including the derived subscription status and the paginated
//! listings. Point queries propagate `NotFound`; list queries answer an
//! unknown prefix with an empty result.

use vstd::prelude::*;

use crate::error::{ContractError, EntityKind};
use crate::hub::{HubView, SubscriptionHub};
use crate::keys::{addr_bytes, addr_key};
use crate::lifecycle::lemma_current_subscription_ok;
use crate::msg::{
    OrganizationResponse, QueryMsg, QueryResponse, SubscriptionPlanResponse, SubscriptionResponse,
};
use crate::owner_index::{owner_index_find, owner_lookup};
use crate::plan_index::{lemma_page_of_membership, page_of, subscriber_page};
use crate::state::{organization_eq, plan_eq};
use crate::user_index::{
    lemma_plan_page_membership, lemma_user_find, plan_page_of, plan_subs_page, user_lookup,
    user_subs_find, user_subs_lookup, PlanSub,
};

verus! {

/// The page size used when a paginated query names none.
pub const DEFAULT_QUERY_LIMIT: u8 = 20;

/// The page size a paginated query runs with: the given one, or the default.
pub open spec fn query_limit(limit: Option<u8>) -> int {
    match limit {
        Option::Some(l) => l as int,
        Option::None => DEFAULT_QUERY_LIMIT as int,
    }
}

/// The organization ids the owner index holds for a user; empty when the
/// user owns none.
pub open spec fn owner_ids_or_empty(v: HubView, user: Seq<char>) -> Seq<u32> {
    match owner_lookup(v.owner_organizations, user) {
        Option::Some(ids) => ids,
        Option::None => Seq::empty(),
    }
}

/// The plan ids of an organization; empty when it does not exist.
pub open spec fn org_plans_or_empty(v: HubView, organization_id: u32) -> Seq<u64> {
    if v.org_id_ok(organization_id) {
        v.organization_plans[organization_id - 1]
    } else {
        Seq::empty()
    }
}

/// A user's (plan id, subscription id) pairs; empty when the user has none.
pub open spec fn user_subs_or_empty(v: HubView, user: Seq<char>) -> Seq<PlanSub> {
    match user_lookup(v.user_subscriptions, user) {
        Option::Some(subs) => subs,
        Option::None => Seq::empty(),
    }
}

/// A plan's subscriber-index entries; empty when it does not exist.
pub open spec fn plan_entries_or_empty(v: HubView, plan_id: u64) -> Seq<(Seq<u8>, u64)> {
    if v.plan_id_ok(plan_id) {
        v.plan_subscribers[plan_id - 1]
    } else {
        Seq::empty()
    }
}

/// The exclusive lower bound of a subscriber page, as an address key.
pub open spec fn start_after_bytes(start_after: Option<String>) -> Option<Seq<u8>> {
    match start_after {
        Option::Some(s) => Option::Some(addr_bytes(s@)),
        Option::None => Option::None,
    }
}

/// Whether a response carries the organization stored under the id.
pub open spec fn org_response_ok(v: HubView, id: u32, resp: OrganizationResponse) -> bool {
    &&& resp.id == id
    &&& organization_eq(resp.data, v.org_of(id))
}

/// Whether the responses carry exactly the organizations of the given ids,
/// in order.
pub open spec fn org_responses_ok(v: HubView, ids: Seq<u32>, rs: Seq<OrganizationResponse>) -> bool {
    &&& rs.len() == ids.len()
    &&& forall|j: int| 0 <= j < ids.len() ==> org_response_ok(v, ids[j], #[trigger] rs[j])
}

/// Whether a response carries the plan stored under the id.
pub open spec fn plan_response_ok(v: HubView, id: u64, resp: SubscriptionPlanResponse) -> bool {
    &&& resp.id == id
    &&& plan_eq(resp.data, v.plan_of(id))
}

/// Whether the responses carry exactly the plans of the given ids, in order.
pub open spec fn plan_responses_ok(
    v: HubView,
    ids: Seq<u64>,
    rs: Seq<SubscriptionPlanResponse>,
) -> bool {
    &&& rs.len() == ids.len()
    &&& forall|j: int| 0 <= j < ids.len() ==> plan_response_ok(v, ids[j], #[trigger] rs[j])
}

/// Whether a response carries the subscription stored under the id.
pub open spec fn sub_response_ok(v: HubView, id: u64, resp: SubscriptionResponse) -> bool {
    &&& resp.id == id
    &&& resp.data == v.sub_of(id)
}

/// Whether the responses carry exactly the subscriptions of the given ids,
/// in order.
pub open spec fn sub_responses_ok(v: HubView, ids: Seq<u64>, rs: Seq<SubscriptionResponse>) -> bool {
    &&& rs.len() == ids.len()
    &&& forall|j: int| 0 <= j < ids.len() ==> sub_response_ok(v, ids[j], #[trigger] rs[j])
}

/// Returns the organization with the given id, or `NotFound`.
pub fn query_organization(hub: &SubscriptionHub, organization_id: u32) -> (r: Result<
    OrganizationResponse,
    ContractError,
>)
    requires
        hub@.wf(),
    ensures
        hub@.org_id_ok(organization_id) ==> (r matches Ok(resp) && org_response_ok(
            hub@,
            organization_id,
            resp,
        )),
        !hub@.org_id_ok(organization_id) ==> r == Result::<
            OrganizationResponse,
            ContractError,
        >::Err(
            ContractError::NotFound { kind: EntityKind::Organization, id: organization_id as u64 },
        ),
{
    if organization_id < 1 || (organization_id as u64) > hub.organizations.len() as u64 {
        return Err(
            ContractError::NotFound { kind: EntityKind::Organization, id: organization_id as u64 },
        );
    }
    let data = hub.organizations[(organization_id - 1) as usize].duplicate();
    Ok(OrganizationResponse { id: organization_id, data })
}

/// Returns all organizations owned by the given user, oldest first; empty
/// when the user owns none.
#[verifier::loop_isolation(false)]
pub fn query_user_organizations(hub: &SubscriptionHub, user_address: String) -> (r: Vec<
    OrganizationResponse,
>)
    requires
        hub@.wf(),
    ensures
        org_responses_ok(hub@, owner_ids_or_empty(hub@, user_address@), r@),
{
    let ghost v = hub@;
    match owner_index_find(&hub.owner_organizations, &user_address) {
        None => Vec::new(),
        Some(f) => {
            proof {
                assert(v.owner_organizations[f as int] == hub.owner_organizations@[f as int]@);
            }
            let ids = &hub.owner_organizations[f].organization_ids;
            let ghost ids_spec = owner_ids_or_empty(v, user_address@);
            proof {
                assert(ids@ == ids_spec);
            }
            let mut out: Vec<OrganizationResponse> = Vec::new();
            let mut i: usize = 0;
            while i < ids.len()
                invariant
                    0 <= i <= ids.len(),
                    out@.len() == i,
                    forall|j: int|
                        0 <= j < i ==> org_response_ok(v, ids_spec[j], #[trigger] out@[j]),
                decreases ids.len() - i,
            {
                let oid = ids[i];
                proof {
                    assert(v.org_id_ok(oid));
                    assert(hub.organizations.len() == hub.organizations@.len());
                }
                let data = hub.organizations[(oid - 1) as usize].duplicate();
                out.push(OrganizationResponse { id: oid, data });
                i += 1;
            }
            out
        },
    }
}

/// Returns the plan with the given id, or `NotFound`.
pub fn query_subscription_plan(hub: &SubscriptionHub, plan_id: u64) -> (r: Result<
    SubscriptionPlanResponse,
    ContractError,
>)
    requires
        hub@.wf(),
    ensures
        hub@.plan_id_ok(plan_id) ==> (r matches Ok(resp) && plan_response_ok(hub@, plan_id, resp)),
        !hub@.plan_id_ok(plan_id) ==> r == Result::<SubscriptionPlanResponse, ContractError>::Err(
            ContractError::NotFound { kind: EntityKind::SubscriptionPlan, id: plan_id },
        ),
{
    if plan_id < 1 || plan_id > hub.plans.len() as u64 {
        return Err(ContractError::NotFound { kind: EntityKind::SubscriptionPlan, id: plan_id });
    }
    proof {
        assert(hub.plans.len() == hub.plans@.len());
    }
    let data = hub.plans[(plan_id - 1) as usize].duplicate();
    Ok(SubscriptionPlanResponse { id: plan_id, data })
}

/// Returns all plans of the given organization, oldest first; empty when it
/// has none or does not exist.
#[verifier::loop_isolation(false)]
pub fn query_organization_subscription_plans(hub: &SubscriptionHub, organization_id: u32) -> (r:
    Vec<SubscriptionPlanResponse>)
    requires
        hub@.wf(),
    ensures
        plan_responses_ok(hub@, org_plans_or_empty(hub@, organization_id), r@),
{
    let ghost v = hub@;
    if organization_id < 1 || (organization_id as u64) > hub.organizations.len() as u64 {
        return Vec::new();
    }
    let ids = &hub.organization_plans[(organization_id - 1) as usize];
    let ghost ids_spec = org_plans_or_empty(v, organization_id);
    proof {
        assert(ids@ == v.organization_plans[organization_id - 1]);
    }
    let mut out: Vec<SubscriptionPlanResponse> = Vec::new();
    let mut i: usize = 0;
    while i < ids.len()
        invariant
            0 <= i <= ids.len(),
            out@.len() == i,
            forall|j: int| 0 <= j < i ==> plan_response_ok(v, ids_spec[j], #[trigger] out@[j]),
        decreases ids.len() - i,
    {
        let pid = ids[i];
        proof {
            assert(v.plan_id_ok(pid));
            assert(hub.plans.len() == hub.plans@.len());
        }
        let data = hub.plans[(pid - 1) as usize].duplicate();
        out.push(SubscriptionPlanResponse { id: pid, data });
        i += 1;
    }
    out
}

/// Returns the subscription with the given id, or `NotFound`.
pub fn query_subscription(hub: &SubscriptionHub, subscription_id: u64) -> (r: Result<
    SubscriptionResponse,
    ContractError,
>)
    requires
        hub@.wf(),
    ensures
        hub@.sub_id_ok(subscription_id) ==> (r matches Ok(resp) && sub_response_ok(
            hub@,
            subscription_id,
            resp,
        )),
        !hub@.sub_id_ok(subscription_id) ==> r == Result::<
            SubscriptionResponse,
            ContractError,
        >::Err(ContractError::NotFound { kind: EntityKind::Subscription, id: subscription_id }),
{
    if subscription_id < 1 || subscription_id > hub.subscriptions.len() as u64 {
        return Err(
            ContractError::NotFound { kind: EntityKind::Subscription, id: subscription_id },
        );
    }
    proof {
        assert(hub.subscriptions.len() == hub.subscriptions@.len());
    }
    let data = hub.subscriptions[(subscription_id - 1) as usize].duplicate();
    Ok(SubscriptionResponse { id: subscription_id, data })
}

/// Returns one page of the given user's subscriptions, ascending by plan id.
/// `start_after` is an exclusive lower bound on the plan id.
#[verifier::loop_isolation(false)]
pub fn query_user_subscriptions(
    hub: &SubscriptionHub,
    user_address: String,
    start_after: Option<u64>,
    limit: Option<u8>,
) -> (r: Vec<SubscriptionResponse>)
    requires
        hub@.wf(),
    ensures
        sub_responses_ok(
            hub@,
            plan_page_of(
                user_subs_or_empty(hub@, user_address@),
                start_after,
                query_limit(limit),
            ).map_values(|p: PlanSub| p.subscription_id),
            r@,
        ),
{
    let ghost v = hub@;
    let lim: usize = match limit {
        Some(l) => l as usize,
        None => DEFAULT_QUERY_LIMIT as usize,
    };
    match user_subs_find(&hub.user_subscriptions, &user_address) {
        None => {
            proof {
                assert(plan_page_of(Seq::empty(), start_after, query_limit(limit)) =~= Seq::<
                    PlanSub,
                >::empty());
            }
            Vec::new()
        },
        Some(f) => {
            proof {
                assert(v.user_subscriptions[f as int] == hub.user_subscriptions@[f as int]@);
            }
            let subs = &hub.user_subscriptions[f].subs;
            let ghost subs_spec = user_subs_or_empty(v, user_address@);
            proof {
                assert(subs@ == subs_spec);
            }
            let page = plan_subs_page(subs, start_after, lim);
            let ghost page_spec = plan_page_of(subs_spec, start_after, query_limit(limit));
            proof {
                assert(page@ == page_spec);
                lemma_plan_page_membership(subs_spec, start_after, query_limit(limit));
            }
            let mut out: Vec<SubscriptionResponse> = Vec::new();
            let mut i: usize = 0;
            while i < page.len()
                invariant
                    0 <= i <= page.len(),
                    out@.len() == i,
                    forall|j: int|
                        0 <= j < i ==> sub_response_ok(
                            v,
                            page_spec[j].subscription_id,
                            #[trigger] out@[j],
                        ),
                decreases page.len() - i,
            {
                let pair = page[i];
                proof {
                    assert(v.sub_id_ok(pair.subscription_id)) by {
                        let j = choose|j: int|
                            0 <= j < subs_spec.len() && page_spec[i as int] == subs_spec[j];
                        assert(v.user_subscriptions[f as int].1[j] == pair);
                    }
                    assert(hub.subscriptions.len() == hub.subscriptions@.len());
                }
                let data = hub.subscriptions[(pair.subscription_id - 1) as usize].duplicate();
                out.push(SubscriptionResponse { id: pair.subscription_id, data });
                i += 1;
            }
            proof {
                assert(out@.len() == page_spec.map_values(
                    |p: PlanSub| p.subscription_id,
                ).len());
            }
            out
        },
    }
}

/// Returns one page of the subscriptions to the given plan, ascending by
/// subscriber address. `start_after` is an exclusive lower bound on the
/// address.
#[verifier::loop_isolation(false)]
pub fn query_subscription_plan_subscriptions(
    hub: &SubscriptionHub,
    plan_id: u64,
    start_after: Option<String>,
    limit: Option<u8>,
) -> (r: Vec<SubscriptionResponse>)
    requires
        hub@.wf(),
    ensures
        sub_responses_ok(
            hub@,
            page_of(
                plan_entries_or_empty(hub@, plan_id),
                start_after_bytes(start_after),
                query_limit(limit),
            ).map_values(|e: (Seq<u8>, u64)| e.1),
            r@,
        ),
{
    let ghost v = hub@;
    let lim: usize = match limit {
        Some(l) => l as usize,
        None => DEFAULT_QUERY_LIMIT as usize,
    };
    if plan_id < 1 || plan_id > hub.plans.len() as u64 {
        proof {
            assert(page_of(
                Seq::empty(),
                start_after_bytes(start_after),
                query_limit(limit),
            ) =~= Seq::<(Seq<u8>, u64)>::empty());
        }
        return Vec::new();
    }
    proof {
        assert(hub.plans.len() == hub.plans@.len());
    }
    let entries = &hub.plan_subscribers[(plan_id - 1) as usize];
    let ghost entries_spec = plan_entries_or_empty(v, plan_id);
    proof {
        assert(crate::plan_index::subscribers_view(entries@) == v.plan_subscribers[plan_id - 1]);
    }
    let sa_key: Option<Vec<u8>> = match &start_after {
        Some(s) => Some(addr_key(s.as_str())),
        None => None,
    };
    proof {
        assert(match sa_key {
            Option::Some(k) => start_after_bytes(start_after) == Option::Some(k@),
            Option::None => start_after_bytes(start_after) is None,
        });
    }
    let ids = subscriber_page(entries, &sa_key, lim);
    let ghost page_spec = page_of(entries_spec, start_after_bytes(start_after), query_limit(limit));
    proof {
        assert(ids@ == page_spec.map_values(|e: (Seq<u8>, u64)| e.1));
        lemma_page_of_membership(entries_spec, start_after_bytes(start_after), query_limit(limit));
    }
    let mut out: Vec<SubscriptionResponse> = Vec::new();
    let mut i: usize = 0;
    while i < ids.len()
        invariant
            0 <= i <= ids.len(),
            out@.len() == i,
            forall|j: int| 0 <= j < i ==> sub_response_ok(v, ids@[j], #[trigger] out@[j]),
        decreases ids.len() - i,
    {
        let sid = ids[i];
        proof {
            assert(v.sub_id_ok(sid)) by {
                assert(ids@[i as int] == page_spec[i as int].1);
                let j = choose|j: int|
                    0 <= j < entries_spec.len() && page_spec[i as int] == entries_spec[j];
                assert(v.plan_subscribers[plan_id - 1][j] == page_spec[i as int]);
            }
            assert(hub.subscriptions.len() == hub.subscriptions@.len());
        }
        let data = hub.subscriptions[(sid - 1) as usize].duplicate();
        out.push(SubscriptionResponse { id: sid, data });
        i += 1;
    }
    out
}

/// Whether the given user holds an active subscription to the given plan:
/// the current record exists, is not canceled and expires strictly after
/// `now`.
pub fn query_is_subscribed(hub: &SubscriptionHub, user_address: String, plan_id: u64, now: u64)
    -> (r: bool)
    requires
        hub@.wf(),
    ensures
        r == hub@.is_subscribed(user_address@, plan_id, now),
{
    match user_subs_lookup(&hub.user_subscriptions, &user_address, plan_id) {
        Some(id) => {
            proof {
                lemma_current_subscription_ok(hub@, user_address@, plan_id, id);
                assert(hub.subscriptions.len() == hub.subscriptions@.len());
            }
            let sub = &hub.subscriptions[(id - 1) as usize];
            !sub.canceled && sub.expiration > now
        },
        None => false,
    }
}

/// Answers one query against the store: the single read-only entry point.
/// `now` is the request's clock snapshot, used only by `IsSubscribed`.
pub fn query(hub: &SubscriptionHub, now: u64, msg: QueryMsg) -> (r: Result<
    QueryResponse,
    ContractError,
>)
    requires
        hub@.wf(),
    ensures
        match msg {
            QueryMsg::Organization { organization_id } => {
                &&& hub@.org_id_ok(organization_id) ==> (r matches Ok(
                    QueryResponse::Organization(resp),
                ) && org_response_ok(hub@, organization_id, resp))
                &&& !hub@.org_id_ok(organization_id) ==> r == Result::<
                    QueryResponse,
                    ContractError,
                >::Err(
                    ContractError::NotFound {
                        kind: EntityKind::Organization,
                        id: organization_id as u64,
                    },
                )
            },
            QueryMsg::UserOrganizations { user_address } => r matches Ok(
                QueryResponse::Organizations(rs),
            ) && org_responses_ok(hub@, owner_ids_or_empty(hub@, user_address@), rs@),
            QueryMsg::SubscriptionPlan { plan_id } => {
                &&& hub@.plan_id_ok(plan_id) ==> (r matches Ok(QueryResponse::SubscriptionPlan(resp))
                    && plan_response_ok(hub@, plan_id, resp))
                &&& !hub@.plan_id_ok(plan_id) ==> r == Result::<QueryResponse, ContractError>::Err(
                    ContractError::NotFound { kind: EntityKind::SubscriptionPlan, id: plan_id },
                )
            },
            QueryMsg::OrganizationSubscriptionPlans { organization_id } => r matches Ok(
                QueryResponse::SubscriptionPlans(rs),
            ) && plan_responses_ok(hub@, org_plans_or_empty(hub@, organization_id), rs@),
            QueryMsg::Subscription { subscription_id } => {
                &&& hub@.sub_id_ok(subscription_id) ==> (r matches Ok(
                    QueryResponse::Subscription(resp),
                ) && sub_response_ok(hub@, subscription_id, resp))
                &&& !hub@.sub_id_ok(subscription_id) ==> r == Result::<
                    QueryResponse,
                    ContractError,
                >::Err(
                    ContractError::NotFound { kind: EntityKind::Subscription, id: subscription_id },
                )
            },
            QueryMsg::UserSubscriptions { user_address, start_after, limit } => r matches Ok(
                QueryResponse::Subscriptions(rs),
            ) && sub_responses_ok(
                hub@,
                plan_page_of(
                    user_subs_or_empty(hub@, user_address@),
                    start_after,
                    query_limit(limit),
                ).map_values(|p: PlanSub| p.subscription_id),
                rs@,
            ),
            QueryMsg::SubscriptionPlanSubscriptions { plan_id, start_after, limit } => r matches Ok(
                QueryResponse::Subscriptions(rs),
            ) && sub_responses_ok(
                hub@,
                page_of(
                    plan_entries_or_empty(hub@, plan_id),
                    start_after_bytes(start_after),
                    query_limit(limit),
                ).map_values(|e: (Seq<u8>, u64)| e.1),
                rs@,
            ),
            QueryMsg::IsSubscribed { user_address, plan_id } => r == Result::<
                QueryResponse,
                ContractError,
            >::Ok(QueryResponse::Subscribed(hub@.is_subscribed(user_address@, plan_id, now))),
        },
{
    match msg {
        QueryMsg::Organization { organization_id } => {
            match query_organization(hub, organization_id) {
                Ok(resp) => Ok(QueryResponse::Organization(resp)),
                Err(e) => Err(e),
            }
        },
        QueryMsg::UserOrganizations { user_address } => Ok(
            QueryResponse::Organizations(query_user_organizations(hub, user_address)),
        ),
        QueryMsg::SubscriptionPlan { plan_id } => {
            match query_subscription_plan(hub, plan_id) {
                Ok(resp) => Ok(QueryResponse::SubscriptionPlan(resp)),
                Err(e) => Err(e),
            }
        },
        QueryMsg::OrganizationSubscriptionPlans { organization_id } => Ok(
            QueryResponse::SubscriptionPlans(
                query_organization_subscription_plans(hub, organization_id),
            ),
        ),
        QueryMsg::Subscription { subscription_id } => {
            match query_subscription(hub, subscription_id) {
                Ok(resp) => Ok(QueryResponse::Subscription(resp)),
                Err(e) => Err(e),
            }
        },
        QueryMsg::UserSubscriptions { user_address, start_after, limit } => Ok(
            QueryResponse::Subscriptions(
                query_user_subscriptions(hub, user_address, start_after, limit),
            ),
        ),
        QueryMsg::SubscriptionPlanSubscriptions { plan_id, start_after, limit } => Ok(
            QueryResponse::Subscriptions(
                query_subscription_plan_subscriptions(hub, plan_id, start_after, limit),
            ),
        ),
        QueryMsg::IsSubscribed { user_address, plan_id } => Ok(
            QueryResponse::Subscribed(query_is_subscribed(hub, user_address, plan_id, now)),
        ),
    }
}

} // verus!
