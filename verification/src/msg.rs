//! The closed command and query message sets, and the structured results the
//! engine answers them with.

use vstd::prelude::*;

use crate::state::{DurationUnit, Organization, Subscription, SubscriptionPlan};

verus! {

/// The (empty) instantiation message.
pub struct InstantiateMsg {}

/// A mutating command.
pub enum ExecuteMsg {
    /// Create a new organization owned by the caller.
    CreateOrganization {
        name: String,
        description: String,
        website: Option<String>,
        metadata: Option<Vec<(String, String)>>,
    },
    /// Create a new subscription plan for an organization the caller owns.
    CreateSubscriptionPlan {
        organization_id: u32,
        name: String,
        description: String,
        price: u128,
        duration: u8,
        duration_unit: DurationUnit,
        features: Option<Vec<String>>,
        metadata: Option<Vec<(String, String)>>,
        cancelable: bool,
        refundable: bool,
    },
    /// Subscribe the caller to a subscription plan.
    SubscribePlan { plan_id: u64 },
    /// Cancel one of the caller's subscriptions.
    CancelPlan { subscription_id: u64 },
}

/// A read-only query.
pub enum QueryMsg {
    /// Get the organization with the given id.
    Organization { organization_id: u32 },
    /// Get all organizations owned by the given user.
    UserOrganizations { user_address: String },
    /// Get the subscription plan with the given id.
    SubscriptionPlan { plan_id: u64 },
    /// Get all subscription plans owned by the given organization.
    OrganizationSubscriptionPlans { organization_id: u32 },
    /// Get the subscription with the given id.
    Subscription { subscription_id: u64 },
    /// Get the given user's subscriptions, paginated by plan id.
    UserSubscriptions { user_address: String, start_after: Option<u64>, limit: Option<u8> },
    /// Get the subscriptions to the given plan, paginated by subscriber.
    SubscriptionPlanSubscriptions { plan_id: u64, start_after: Option<String>, limit: Option<u8> },
    /// Whether the given user holds an active subscription to the given plan.
    IsSubscribed { user_address: String, plan_id: u64 },
}

/// An organization record together with its id.
#[derive(Debug)]
pub struct OrganizationResponse {
    pub id: u32,
    pub data: Organization,
}

/// A subscription plan record together with its id.
#[derive(Debug)]
pub struct SubscriptionPlanResponse {
    pub id: u64,
    pub data: SubscriptionPlan,
}

/// A subscription record together with its id.
#[derive(Debug)]
pub struct SubscriptionResponse {
    pub id: u64,
    pub data: Subscription,
}

/// What a successful command attributes: the action taken and the ids it
/// touched or created.
#[derive(Clone, Copy, Debug, PartialEq, Eq, Structural)]
pub enum ExecuteResponse {
    OrganizationCreated { organization_id: u32 },
    SubscriptionPlanCreated { subscription_plan_id: u64 },
    PlanSubscribed { organization_id: u32, subscription_plan_id: u64, subscription_id: u64 },
    PlanCanceled { subscription_id: u64 },
}

/// The answer to a [`QueryMsg`], one variant per query.
pub enum QueryResponse {
    Organization(OrganizationResponse),
    Organizations(Vec<OrganizationResponse>),
    SubscriptionPlan(SubscriptionPlanResponse),
    SubscriptionPlans(Vec<SubscriptionPlanResponse>),
    Subscription(SubscriptionResponse),
    Subscriptions(Vec<SubscriptionResponse>),
    Subscribed(bool),
}

} // verus!
