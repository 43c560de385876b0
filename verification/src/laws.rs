//! Laws of the engine: properties that span several operations, stated over
//! the transition functions and proved once and for all.

use vstd::prelude::*;

use crate::error::ContractError;
use crate::hub::HubView;
use crate::keys::{
    addr_bytes, key_lt, lemma_key_lt_asymmetric, lemma_key_lt_irreflexive,
};
use crate::lifecycle::{
    cancel_plan_tr, create_organization_tr, execute_tr, lemma_current_subscription_ok,
    lemma_subscribe_wf, subscribe_apply, subscribe_plan_tr,
};
use crate::msg::{ExecuteMsg, ExecuteResponse};
use crate::plan_index::{after_start, page_of, subscribers_sorted};
use crate::state::spec_expiration;
use crate::user_index::lemma_user_upsert_lookup;

verus! {

/// An organization is owned by the address that created it.
pub proof fn lemma_created_organization_owner(
    v: HubView,
    sender: String,
    name: String,
    description: String,
    website: Option<String>,
    metadata: Option<Vec<(String, String)>>,
)
    requires
        v.organizations.len() < u32::MAX,
    ensures
        ({
            let v2 = create_organization_tr(v, sender, name, description, website, metadata);
            let id = (v.organizations.len() + 1) as u32;
            &&& v2.organizations.len() == v.organizations.len() + 1
            &&& v2.org_of(id).owner == sender
        }),
{
}

/// No command ever changes an existing organization record: in particular,
/// its owner never changes.
pub proof fn lemma_organizations_immutable(
    v: HubView,
    sender: String,
    now: u64,
    msg: ExecuteMsg,
    id: u32,
)
    requires
        v.org_id_ok(id),
    ensures
        execute_tr(v, sender, now, msg).0.org_id_ok(id),
        execute_tr(v, sender, now, msg).0.org_of(id) == v.org_of(id),
{
    let v2 = execute_tr(v, sender, now, msg).0;
    match msg {
        ExecuteMsg::CreateOrganization { .. } => {
            assert(v2.organizations[id - 1] == v.organizations[id - 1]);
        },
        ExecuteMsg::CreateSubscriptionPlan { .. } => {},
        ExecuteMsg::SubscribePlan { .. } => {},
        ExecuteMsg::CancelPlan { .. } => {},
    }
}

/// Creating an organization appends its id to the creator's listing — and
/// only to the creator's: every other owner's listing is untouched.
pub proof fn lemma_create_organization_listing(
    v: HubView,
    sender: String,
    name: String,
    description: String,
    website: Option<String>,
    metadata: Option<Vec<(String, String)>>,
)
    requires
        crate::owner_index::owners_distinct(v.owner_organizations),
    ensures
        ({
            let v2 = create_organization_tr(v, sender, name, description, website, metadata);
            let id = (v.organizations.len() + 1) as u32;
            &&& crate::owner_index::owner_lookup(v2.owner_organizations, sender@)
                == Option::Some(
                match crate::owner_index::owner_lookup(v.owner_organizations, sender@) {
                    Option::Some(ids) => ids.push(id),
                    Option::None => seq![id],
                },
            )
            &&& forall|other: Seq<char>|
                other != sender@ ==> crate::owner_index::owner_lookup(
                    v2.owner_organizations,
                    other,
                ) == crate::owner_index::owner_lookup(v.owner_organizations, other)
        }),
{
    crate::owner_index::lemma_owner_append_lookup(
        v.owner_organizations,
        sender,
        (v.organizations.len() + 1) as u32,
    );
}

/// A plan created by anyone but the organization's owner is rejected with
/// `Unauthorized`, and the store — and so everything any query can see — is
/// exactly as before.
pub proof fn lemma_create_plan_unauthorized(
    v: HubView,
    sender: String,
    organization_id: u32,
    name: String,
    description: String,
    price: u128,
    duration: u8,
    duration_unit: crate::state::DurationUnit,
    features: Option<Vec<String>>,
    metadata: Option<Vec<(String, String)>>,
    cancelable: bool,
    refundable: bool,
)
    requires
        v.org_id_ok(organization_id),
        sender@ != v.org_of(organization_id).owner@,
    ensures
        crate::lifecycle::create_subscription_plan_tr(
            v,
            sender,
            organization_id,
            name,
            description,
            price,
            duration,
            duration_unit,
            features,
            metadata,
            cancelable,
            refundable,
        ) == (v, Result::<ExecuteResponse, ContractError>::Err(ContractError::Unauthorized)),
{
}

/// Subscribing to an existing plan with a duration of at least one unit
/// leaves the caller subscribed: `IsSubscribed` answers `true` at the same
/// clock snapshot.
pub proof fn lemma_subscribe_activates(v: HubView, sender: String, now: u64, plan_id: u64)
    requires
        v.wf(),
        v.subscriptions.len() < u64::MAX,
        v.plan_id_ok(plan_id),
        v.plan_of(plan_id).duration >= 1,
        spec_expiration(now, v.plan_of(plan_id).duration, v.plan_of(plan_id).duration_unit)
            <= u64::MAX,
        !v.is_subscribed(sender@, plan_id, now),
    ensures
        subscribe_plan_tr(v, sender, now, plan_id).1 is Ok,
        subscribe_plan_tr(v, sender, now, plan_id).0.is_subscribed(sender@, plan_id, now),
{
    let v2 = subscribe_apply(v, sender, now, plan_id);
    let id = (v.subscriptions.len() + 1) as u64;
    let plan = v.plan_of(plan_id);
    lemma_user_upsert_lookup(v.user_subscriptions, sender, plan_id, id);
    assert(v2.current_subscription(sender@, plan_id) == Option::Some(id));
    assert(v2.sub_of(id) == crate::lifecycle::new_subscription(v, sender, now, plan_id));
    assert(plan.duration * crate::state::spec_unit_seconds(plan.duration_unit)
        >= crate::state::spec_unit_seconds(plan.duration_unit)) by (nonlinear_arith)
        requires
            plan.duration >= 1,
            crate::state::spec_unit_seconds(plan.duration_unit) >= 0,
    ;
    assert(spec_expiration(now, plan.duration, plan.duration_unit) > now);
}

/// Subscribing and then canceling the new subscription leaves the caller
/// unsubscribed: `IsSubscribed` answers `false` at every clock snapshot
/// until a new subscription is taken out.
pub proof fn lemma_subscribe_cancel_deactivates(
    v: HubView,
    sender: String,
    now: u64,
    now2: u64,
    plan_id: u64,
    t: u64,
)
    requires
        v.wf(),
        v.subscriptions.len() < u64::MAX,
        v.plan_id_ok(plan_id),
        spec_expiration(now, v.plan_of(plan_id).duration, v.plan_of(plan_id).duration_unit)
            <= u64::MAX,
        !v.is_subscribed(sender@, plan_id, now),
        v.plan_of(plan_id).cancelable,
        now2 <= spec_expiration(
            now,
            v.plan_of(plan_id).duration,
            v.plan_of(plan_id).duration_unit,
        ),
    ensures
        ({
            let v1 = subscribe_plan_tr(v, sender, now, plan_id).0;
            let id = (v.subscriptions.len() + 1) as u64;
            &&& cancel_plan_tr(v1, sender, now2, id).1 is Ok
            &&& !cancel_plan_tr(v1, sender, now2, id).0.is_subscribed(sender@, plan_id, t)
        }),
{
    let v1 = subscribe_apply(v, sender, now, plan_id);
    let id = (v.subscriptions.len() + 1) as u64;
    lemma_subscribe_wf(v, sender, now, plan_id);
    lemma_user_upsert_lookup(v.user_subscriptions, sender, plan_id, id);
    assert(v1.current_subscription(sender@, plan_id) == Option::Some(id));
    assert(v1.sub_of(id) == crate::lifecycle::new_subscription(v, sender, now, plan_id));
    let v2 = cancel_plan_tr(v1, sender, now2, id).0;
    assert(v2.user_subscriptions == v1.user_subscriptions);
    assert(v2.sub_of(id).canceled);
}

/// A second `Cancel` of the same subscription by the same caller fails with
/// `AlreadyCanceled`, whatever the clock says, and leaves the state exactly
/// as the first cancel left it.
pub proof fn lemma_cancel_twice(v: HubView, sender: String, now: u64, now2: u64, subscription_id: u64)
    requires
        v.wf(),
        cancel_plan_tr(v, sender, now, subscription_id).1 is Ok,
    ensures
        ({
            let v1 = cancel_plan_tr(v, sender, now, subscription_id).0;
            cancel_plan_tr(v1, sender, now2, subscription_id) == (
                v1,
                Result::<ExecuteResponse, ContractError>::Err(ContractError::AlreadyCanceled),
            )
        }),
{
    let v1 = cancel_plan_tr(v, sender, now, subscription_id).0;
    assert(v1.sub_of(subscription_id).canceled);
    assert(v1.sub_of(subscription_id).subscriber == v.sub_of(subscription_id).subscriber);
    assert(v1.plan_of(v1.sub_of(subscription_id).plan_id) == v.plan_of(
        v.sub_of(subscription_id).plan_id,
    ));
}

/// Subscribing again after the current subscription was canceled succeeds
/// and issues a fresh id, distinct from the canceled one.
pub proof fn lemma_resubscribe_after_cancel(
    v: HubView,
    sender: String,
    now: u64,
    plan_id: u64,
    old_id: u64,
)
    requires
        v.wf(),
        v.subscriptions.len() < u64::MAX,
        v.plan_id_ok(plan_id),
        spec_expiration(now, v.plan_of(plan_id).duration, v.plan_of(plan_id).duration_unit)
            <= u64::MAX,
        v.current_subscription(sender@, plan_id) == Option::Some(old_id),
        v.sub_of(old_id).canceled,
    ensures
        subscribe_plan_tr(v, sender, now, plan_id).1 == Result::<
            ExecuteResponse,
            ContractError,
        >::Ok(
            ExecuteResponse::PlanSubscribed {
                organization_id: v.plan_of(plan_id).organization_id,
                subscription_plan_id: plan_id,
                subscription_id: (v.subscriptions.len() + 1) as u64,
            },
        ),
        (v.subscriptions.len() + 1) as u64 != old_id,
{
    lemma_current_subscription_ok(v, sender@, plan_id, old_id);
    assert(!v.is_subscribed(sender@, plan_id, now));
}

/// Subscribing while the current subscription is still active fails with
/// `AlreadySubscribed` and changes nothing.
pub proof fn lemma_subscribe_while_active(v: HubView, sender: String, now: u64, plan_id: u64)
    requires
        v.plan_id_ok(plan_id),
        v.is_subscribed(sender@, plan_id, now),
    ensures
        subscribe_plan_tr(v, sender, now, plan_id) == (
            v,
            Result::<ExecuteResponse, ContractError>::Err(ContractError::AlreadySubscribed),
        ),
{
}

/// Any `Cancel` of a subscription to a plan that forbids cancellation fails
/// with `NotCancelable` and changes nothing, whatever the clock says and
/// whether or not the subscription was already canceled or has expired. (A
/// caller other than the subscriber is turned away as `Unauthorized` before
/// this guard is reached.)
pub proof fn lemma_cancel_not_cancelable(v: HubView, sender: String, now: u64, subscription_id: u64)
    requires
        v.sub_id_ok(subscription_id),
        sender@ == v.sub_of(subscription_id).subscriber@,
        !v.plan_of(v.sub_of(subscription_id).plan_id).cancelable,
    ensures
        cancel_plan_tr(v, sender, now, subscription_id) == (
            v,
            Result::<ExecuteResponse, ContractError>::Err(ContractError::NotCancelable),
        ),
{
}

/// A page with no lower bound is the front of the index.
pub proof fn lemma_page_none_is_prefix(entries: Seq<(Seq<u8>, u64)>, limit: int)
    requires
        0 <= limit,
    ensures
        page_of(entries, Option::None, limit) == entries.take(
            if limit <= entries.len() {
                limit
            } else {
                entries.len() as int
            },
        ),
    decreases entries.len(),
{
    let p = page_of(entries, Option::None, limit);
    if entries.len() == 0 || limit <= 0 {
        assert(p =~= entries.take(0));
    } else {
        lemma_page_none_is_prefix(entries.drop_first(), limit - 1);
        let cut = if limit - 1 <= entries.drop_first().len() {
            limit - 1
        } else {
            entries.drop_first().len() as int
        };
        assert(p == seq![entries[0]] + entries.drop_first().take(cut));
        assert(p =~= entries.take(cut + 1));
    }
}

/// A page whose lower bound splits a sorted index is the slice right of the
/// split.
pub proof fn lemma_page_after_cut(entries: Seq<(Seq<u8>, u64)>, s: Seq<u8>, limit: int, cut: int)
    requires
        0 <= limit,
        0 <= cut <= entries.len(),
        forall|i: int| 0 <= i < cut ==> !key_lt(s, #[trigger] entries[i].0),
        forall|i: int| cut <= i < entries.len() ==> key_lt(s, #[trigger] entries[i].0),
    ensures
        page_of(entries, Option::Some(s), limit) == entries.skip(cut).take(
            if limit <= entries.len() - cut {
                limit
            } else {
                entries.len() - cut
            },
        ),
    decreases entries.len(),
{
    let p = page_of(entries, Option::Some(s), limit);
    if entries.len() == 0 {
        assert(p =~= entries.skip(0).take(0));
    } else if limit <= 0 {
        assert(p =~= entries.skip(cut).take(0));
    } else if cut == 0 {
        // every entry lies after the bound: the page is a plain prefix
        assert(after_start(entries[0].0, Option::Some(s)));
        lemma_page_after_cut(entries.drop_first(), s, limit - 1, 0);
        let inner = if limit - 1 <= entries.drop_first().len() {
            limit - 1
        } else {
            entries.drop_first().len() as int
        };
        assert(p == seq![entries[0]] + entries.drop_first().skip(0).take(inner));
        assert(entries.drop_first().skip(0) =~= entries.drop_first());
        assert(p =~= entries.skip(0).take(inner + 1));
    } else {
        assert(!after_start(entries[0].0, Option::Some(s)));
        assert forall|i: int| 0 <= i < cut - 1 implies !key_lt(
            s,
            #[trigger] entries.drop_first()[i].0,
        ) by {
            assert(entries.drop_first()[i] == entries[i + 1]);
        }
        assert forall|i: int| cut - 1 <= i < entries.drop_first().len() implies key_lt(
            s,
            #[trigger] entries.drop_first()[i].0,
        ) by {
            assert(entries.drop_first()[i] == entries[i + 1]);
        }
        lemma_page_after_cut(entries.drop_first(), s, limit, cut - 1);
        assert(entries.drop_first().skip(cut - 1) =~= entries.skip(cut));
    }
}

/// The pagination law: when a full first page is followed by a second page
/// whose exclusive lower bound is the first page's last key, the two pages
/// together are exactly the front of the index — in ascending key order,
/// with no entry repeated and none skipped.
pub proof fn lemma_pagination_chain(entries: Seq<(Seq<u8>, u64)>, n: int, m: int)
    requires
        subscribers_sorted(entries),
        0 < n,
        0 <= m,
        page_of(entries, Option::None, n).len() == n,
    ensures
        ({
            let first = page_of(entries, Option::None, n);
            let second = page_of(entries, Option::Some(first.last().0), m);
            first + second == entries.take(
                if n + m <= entries.len() {
                    n + m
                } else {
                    entries.len() as int
                },
            )
        }),
{
    let first = page_of(entries, Option::None, n);
    lemma_page_none_is_prefix(entries, n);
    assert(n <= entries.len());
    assert(first == entries.take(n));
    let s = first.last().0;
    assert(first.last() == entries[n - 1]);
    assert forall|i: int| 0 <= i < n implies !key_lt(s, #[trigger] entries[i].0) by {
        if i < n - 1 {
            lemma_key_lt_asymmetric(entries[i].0, s);
        } else {
            lemma_key_lt_irreflexive(s);
        }
    }
    lemma_page_after_cut(entries, s, m, n);
    let second = page_of(entries, Option::Some(s), m);
    let inner = if m <= entries.len() - n {
        m
    } else {
        entries.len() - n
    };
    assert(second == entries.skip(n).take(inner));
    assert(first + second =~= entries.take(
        if n + m <= entries.len() {
            n + m
        } else {
            entries.len() as int
        },
    ));
}

/// The pagination law at the query level: after a full page of a plan's
/// subscriptions, using the last returned subscriber as the next exclusive
/// lower bound continues the listing with no duplicates and no gaps.
pub proof fn lemma_plan_subscriptions_pagination(v: HubView, plan_id: u64, n: int, m: int)
    requires
        v.wf(),
        v.plan_id_ok(plan_id),
        0 < n,
        0 <= m,
        page_of(v.plan_subscribers[plan_id - 1], Option::None, n).len() == n,
    ensures
        ({
            let entries = v.plan_subscribers[plan_id - 1];
            let first = page_of(entries, Option::None, n);
            let last_subscriber = v.sub_of(first.last().1).subscriber;
            let second = page_of(entries, Option::Some(addr_bytes(last_subscriber@)), m);
            first + second == entries.take(
                if n + m <= entries.len() {
                    n + m
                } else {
                    entries.len() as int
                },
            )
        }),
{
    let entries = v.plan_subscribers[plan_id - 1];
    let first = page_of(entries, Option::None, n);
    lemma_page_none_is_prefix(entries, n);
    assert(first.last() == entries[n - 1]);
    // by well-formedness the entry's key is its record's subscriber address
    assert(addr_bytes(v.sub_of(entries[n - 1].1).subscriber@) == entries[n - 1].0);
    lemma_pagination_chain(entries, n, m);
}

/// The two mirrored index sides agree: an entry of a plan's subscriber index
/// names the same subscription id the user index holds for that user and
/// plan.
pub proof fn lemma_mirror_indexes_agree(v: HubView, user: Seq<char>, plan_id: u64, id: u64)
    requires
        v.wf(),
        v.plan_id_ok(plan_id),
        crate::plan_index::key_lookup(v.plan_subscribers[plan_id - 1], addr_bytes(user))
            == Option::Some(id),
    ensures
        v.current_subscription(user, plan_id) == Option::Some(id),
{
    let entries = v.plan_subscribers[plan_id - 1];
    let kb = addr_bytes(user);
    crate::plan_index::lemma_key_find(entries, kb);
    let f = crate::plan_index::key_find(entries, kb);
    assert(f < entries.len() && entries[f] == (kb, id));
    let subscriber = v.sub_of(id).subscriber@;
    assert(addr_bytes(subscriber) == kb);
    // a UTF-8 key determines its address: encoding round-trips
    vstd::utf8::encode_utf8_decode_utf8(subscriber);
    vstd::utf8::encode_utf8_decode_utf8(user);
    assert(subscriber == user);
}

/// A subscription's subscriber, plan and expiration never change, and its
/// `canceled` flag never reverts: commands only append records or flip the
/// flag of one record to `true`.
pub proof fn lemma_subscription_fields_immutable(
    v: HubView,
    sender: String,
    now: u64,
    msg: ExecuteMsg,
    id: u64,
)
    requires
        v.sub_id_ok(id),
    ensures
        ({
            let v2 = execute_tr(v, sender, now, msg).0;
            &&& v2.sub_id_ok(id)
            &&& v2.sub_of(id).subscriber == v.sub_of(id).subscriber
            &&& v2.sub_of(id).plan_id == v.sub_of(id).plan_id
            &&& v2.sub_of(id).expiration == v.sub_of(id).expiration
            &&& (v.sub_of(id).canceled ==> v2.sub_of(id).canceled)
        }),
{
    let v2 = execute_tr(v, sender, now, msg).0;
    match msg {
        ExecuteMsg::CreateOrganization { .. } => {},
        ExecuteMsg::CreateSubscriptionPlan { .. } => {},
        ExecuteMsg::SubscribePlan { .. } => {
            assert(v2.subscriptions[id - 1] == v.subscriptions[id - 1]);
        },
        ExecuteMsg::CancelPlan { .. } => {},
    }
}

} // verus!
