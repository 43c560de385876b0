//! The entity records the store keeps: the contract configuration,
//! organizations, subscription plans and subscriptions, together with the
//! duration arithmetic that turns a plan into an expiration timestamp.
//!
//! Addresses are opaque identity strings supplied by the host; timestamps are
//! seconds. Metadata is an ordered list of key-value pairs.

use vstd::prelude::*;

use crate::{DAY_SECONDS, MONTH_SECONDS, WEEK_SECONDS, YEAR_SECONDS};

verus! {

/// The contract's configuration, written once at instantiation.
#[derive(Debug)]
pub struct Config {
    /// The address that instantiated the contract.
    pub admin: String,
}

/// A named entity owned by one address, publishing subscription plans.
/// Immutable after creation; its id is permanent and never reused.
#[derive(Debug)]
pub struct Organization {
    /// The address of the organization's owner. Never changes.
    pub owner: String,
    /// Name of the organization.
    pub name: String,
    /// Description of the organization.
    pub description: String,
    /// Website of the organization.
    pub website: Option<String>,
    /// Key-value metadata of the organization.
    pub metadata: Option<Vec<(String, String)>>,
}

/// The time granularity of a plan's duration.
#[derive(Clone, Copy, Debug, PartialEq, Eq, Structural)]
pub enum DurationUnit {
    Day,
    Week,
    Month,
    Year,
}

/// A priced, time-bounded offering belonging to one organization.
/// Immutable after creation.
#[derive(Debug)]
pub struct SubscriptionPlan {
    /// The id of the organization that owns the plan.
    pub organization_id: u32,
    /// Name of the subscription plan.
    pub name: String,
    /// Description of the subscription plan.
    pub description: String,
    /// Price of the subscription plan.
    pub price: u128,
    /// Duration of the subscription plan, counted in `duration_unit`s.
    pub duration: u8,
    /// Unit of the duration of the subscription plan.
    pub duration_unit: DurationUnit,
    /// List of features of the subscription plan.
    pub features: Option<Vec<String>>,
    /// Key-value metadata of the subscription plan.
    pub metadata: Option<Vec<(String, String)>>,
    /// Whether a subscription to the plan can be canceled.
    pub cancelable: bool,
    /// Whether a canceled subscription is refunded.
    pub refundable: bool,
}

/// One address's enrollment in one plan. Only the `canceled` flag ever
/// changes after creation; records are never deleted.
#[derive(Debug)]
pub struct Subscription {
    /// The address of the subscriber. Never changes.
    pub subscriber: String,
    /// The id of the plan subscribed to. Never changes.
    pub plan_id: u64,
    /// The timestamp, in seconds, at which the subscription lapses.
    pub expiration: u64,
    /// Whether the subscription was canceled.
    pub canceled: bool,
}

/// The seconds one duration unit stands for: a month counts 30 days and a
/// year 365 days.
pub open spec fn spec_unit_seconds(unit: DurationUnit) -> u64 {
    match unit {
        DurationUnit::Day => DAY_SECONDS,
        DurationUnit::Week => WEEK_SECONDS,
        DurationUnit::Month => MONTH_SECONDS,
        DurationUnit::Year => YEAR_SECONDS,
    }
}

/// The seconds one duration unit stands for.
pub fn unit_seconds(unit: &DurationUnit) -> (s: u64)
    ensures
        s == spec_unit_seconds(*unit),
{
    match unit {
        DurationUnit::Day => DAY_SECONDS,
        DurationUnit::Week => WEEK_SECONDS,
        DurationUnit::Month => MONTH_SECONDS,
        DurationUnit::Year => YEAR_SECONDS,
    }
}

/// The expiration timestamp of a subscription taken out at `now` under a
/// plan with the given duration, as unbounded arithmetic.
pub open spec fn spec_expiration(now: u64, duration: u8, unit: DurationUnit) -> int {
    now + duration * spec_unit_seconds(unit)
}

/// The expiration timestamp of a subscription taken out at `now`.
pub fn expiration_time(now: u64, duration: u8, unit: &DurationUnit) -> (t: u64)
    requires
        spec_expiration(now, duration, *unit) <= u64::MAX,
    ensures
        t == spec_expiration(now, duration, *unit),
{
    let offset: u64 = (duration as u64) * unit_seconds(unit);
    now + offset
}

/// An exact copy of a list of key-value pairs.
fn duplicate_pairs(pairs: &Vec<(String, String)>) -> (r: Vec<(String, String)>)
    ensures
        r@ == pairs@,
{
    let mut out: Vec<(String, String)> = Vec::new();
    let mut i: usize = 0;
    while i < pairs.len()
        invariant
            i <= pairs.len(),
            out@ == pairs@.take(i as int),
        decreases pairs.len() - i,
    {
        let pair = &pairs[i];
        out.push((pair.0.clone(), pair.1.clone()));
        i += 1;
        proof {
            assert(out@ =~= pairs@.take(i as int));
        }
    }
    proof {
        assert(out@ =~= pairs@);
    }
    out
}

/// Whether two optional pair lists hold the same pairs.
pub open spec fn metadata_eq(a: Option<Vec<(String, String)>>, b: Option<
    Vec<(String, String)>,
>) -> bool {
    match (a, b) {
        (Option::None, Option::None) => true,
        (Option::Some(x), Option::Some(y)) => x@ == y@,
        _ => false,
    }
}

/// Whether two optional string lists hold the same strings.
pub open spec fn string_list_eq(a: Option<Vec<String>>, b: Option<Vec<String>>) -> bool {
    match (a, b) {
        (Option::None, Option::None) => true,
        (Option::Some(x), Option::Some(y)) => x@ == y@,
        _ => false,
    }
}

/// Whether two organization records agree on every field. List-valued fields
/// are compared by their contents.
pub open spec fn organization_eq(a: Organization, b: Organization) -> bool {
    &&& a.owner == b.owner
    &&& a.name == b.name
    &&& a.description == b.description
    &&& a.website == b.website
    &&& metadata_eq(a.metadata, b.metadata)
}

impl Organization {
    /// A copy of the record, field for field.
    pub fn duplicate(&self) -> (r: Organization)
        ensures
            organization_eq(r, *self),
    {
        let metadata = match &self.metadata {
            Some(pairs) => Some(duplicate_pairs(pairs)),
            None => None,
        };
        Organization {
            owner: self.owner.clone(),
            name: self.name.clone(),
            description: self.description.clone(),
            website: self.website.clone(),
            metadata,
        }
    }
}

/// An exact copy of a list of strings.
fn duplicate_strings(items: &Vec<String>) -> (r: Vec<String>)
    ensures
        r@ == items@,
{
    let mut out: Vec<String> = Vec::new();
    let mut i: usize = 0;
    while i < items.len()
        invariant
            i <= items.len(),
            out@ == items@.take(i as int),
        decreases items.len() - i,
    {
        out.push(items[i].clone());
        i += 1;
        proof {
            assert(out@ =~= items@.take(i as int));
        }
    }
    proof {
        assert(out@ =~= items@);
    }
    out
}

/// Whether two plan records agree on every field. List-valued fields are
/// compared by their contents.
pub open spec fn plan_eq(a: SubscriptionPlan, b: SubscriptionPlan) -> bool {
    &&& a.organization_id == b.organization_id
    &&& a.name == b.name
    &&& a.description == b.description
    &&& a.price == b.price
    &&& a.duration == b.duration
    &&& a.duration_unit == b.duration_unit
    &&& string_list_eq(a.features, b.features)
    &&& metadata_eq(a.metadata, b.metadata)
    &&& a.cancelable == b.cancelable
    &&& a.refundable == b.refundable
}

impl SubscriptionPlan {
    /// A copy of the record, field for field.
    pub fn duplicate(&self) -> (r: SubscriptionPlan)
        ensures
            plan_eq(r, *self),
    {
        let features = match &self.features {
            Some(items) => Some(duplicate_strings(items)),
            None => None,
        };
        let metadata = match &self.metadata {
            Some(pairs) => Some(duplicate_pairs(pairs)),
            None => None,
        };
        SubscriptionPlan {
            organization_id: self.organization_id,
            name: self.name.clone(),
            description: self.description.clone(),
            price: self.price,
            duration: self.duration,
            duration_unit: self.duration_unit,
            features,
            metadata,
            cancelable: self.cancelable,
            refundable: self.refundable,
        }
    }
}

impl Subscription {
    /// An exact copy of the record.
    pub fn duplicate(&self) -> (r: Subscription)
        ensures
            r == *self,
    {
        Subscription {
            subscriber: self.subscriber.clone(),
            plan_id: self.plan_id,
            expiration: self.expiration,
            canceled: self.canceled,
        }
    }
}

} // verus!
