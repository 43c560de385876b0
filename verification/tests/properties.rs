use subscription_hub::error::{ContractError, EntityKind};
use subscription_hub::hub::{instantiate, SubscriptionHub};
use subscription_hub::lifecycle::{
    execute, execute_cancel_plan, execute_create_organization, execute_create_subscription_plan,
    execute_subscribe_plan,
};
use subscription_hub::msg::{ExecuteMsg, ExecuteResponse, InstantiateMsg, QueryMsg, QueryResponse};
use subscription_hub::queries::{
    query, query_is_subscribed, query_organization, query_subscription,
    query_subscription_plan, query_subscription_plan_subscriptions, query_user_organizations,
    query_user_subscriptions,
};
use subscription_hub::state::DurationUnit;

const ADMIN: &str = "admin";
const ORGANIZATION: &str = "organization";
const USER: &str = "user";

const NOW: u64 = 1_571_797_419;

const MONTH: u64 = 2_592_000;

fn proper_instantiate() -> SubscriptionHub {
    instantiate(ADMIN.to_string(), InstantiateMsg {})
}

fn create_organization(hub: &mut SubscriptionHub, owner: &str) {
    execute_create_organization(
        hub,
        owner.to_string(),
        "Test Organization".to_string(),
        "Test organization is the best".to_string(),
        None,
        None,
    )
    .unwrap();
}

fn create_plan(
    hub: &mut SubscriptionHub,
    owner: &str,
    duration: u8,
    duration_unit: DurationUnit,
    cancelable: bool,
) -> u64 {
    let res = execute_create_subscription_plan(
        hub,
        owner.to_string(),
        1,
        "Test Plan".to_string(),
        "Test plan is the best".to_string(),
        10_000,
        duration,
        duration_unit,
        None,
        None,
        cancelable,
        false,
    )
    .unwrap();
    match res {
        ExecuteResponse::SubscriptionPlanCreated {
            subscription_plan_id,
        } => subscription_plan_id,
        _ => panic!("unexpected response"),
    }
}

#[test]
fn resubscription_gets_a_fresh_id() {
    let mut hub = proper_instantiate();
    create_organization(&mut hub, ORGANIZATION);
    let plan = create_plan(&mut hub, ORGANIZATION, 1, DurationUnit::Month, true);

    let first = execute_subscribe_plan(&mut hub, USER.to_string(), NOW, plan).unwrap();
    assert_eq!(
        first,
        ExecuteResponse::PlanSubscribed {
            organization_id: 1,
            subscription_plan_id: plan,
            subscription_id: 1,
        }
    );

    execute_cancel_plan(&mut hub, USER.to_string(), NOW, 1).unwrap();
    assert!(!query_is_subscribed(&hub, USER.to_string(), plan, NOW));

    let second = execute_subscribe_plan(&mut hub, USER.to_string(), NOW, plan).unwrap();
    assert_eq!(
        second,
        ExecuteResponse::PlanSubscribed {
            organization_id: 1,
            subscription_plan_id: plan,
            subscription_id: 2,
        }
    );
    assert!(query_is_subscribed(&hub, USER.to_string(), plan, NOW));

    // the canceled record is retained for history
    let old = query_subscription(&hub, 1).unwrap();
    assert!(old.data.canceled);
    let new = query_subscription(&hub, 2).unwrap();
    assert!(!new.data.canceled);
}

#[test]
fn pagination_has_no_duplicates_and_no_gaps() {
    let mut hub = proper_instantiate();
    create_organization(&mut hub, ORGANIZATION);
    let plan = create_plan(&mut hub, ORGANIZATION, 1, DurationUnit::Month, true);

    // 25 subscribers whose addresses sort in numeric order
    let mut users: Vec<String> = Vec::new();
    for i in 1..=25u32 {
        users.push(format!("user{:02}", i));
    }
    for user in &users {
        execute_subscribe_plan(&mut hub, user.clone(), NOW, plan).unwrap();
    }

    // the default page holds the first 20, ascending by subscriber
    let first = query_subscription_plan_subscriptions(&hub, plan, None, None);
    assert_eq!(first.len(), 20);
    for (i, resp) in first.iter().enumerate() {
        assert_eq!(resp.data.subscriber, users[i]);
    }

    // the next page, keyed by the last returned subscriber, holds the rest
    let cursor = first.last().unwrap().data.subscriber.clone();
    let second = query_subscription_plan_subscriptions(&hub, plan, Some(cursor), None);
    assert_eq!(second.len(), 5);
    for (i, resp) in second.iter().enumerate() {
        assert_eq!(resp.data.subscriber, users[20 + i]);
    }

    // a smaller explicit limit caps the page
    let capped = query_subscription_plan_subscriptions(&hub, plan, None, Some(3));
    assert_eq!(capped.len(), 3);
    assert_eq!(capped[0].data.subscriber, users[0]);
    assert_eq!(capped[2].data.subscriber, users[2]);
}

#[test]
fn expiration_follows_the_duration_unit() {
    let mut hub = proper_instantiate();
    create_organization(&mut hub, ORGANIZATION);
    let day = create_plan(&mut hub, ORGANIZATION, 1, DurationUnit::Day, true);
    let week = create_plan(&mut hub, ORGANIZATION, 1, DurationUnit::Week, true);
    let month = create_plan(&mut hub, ORGANIZATION, 1, DurationUnit::Month, true);
    let year = create_plan(&mut hub, ORGANIZATION, 2, DurationUnit::Year, true);

    for plan in [day, week, month, year] {
        execute_subscribe_plan(&mut hub, USER.to_string(), NOW, plan).unwrap();
    }
    assert_eq!(query_subscription(&hub, 1).unwrap().data.expiration, NOW + 86_400);
    assert_eq!(query_subscription(&hub, 2).unwrap().data.expiration, NOW + 604_800);
    assert_eq!(query_subscription(&hub, 3).unwrap().data.expiration, NOW + 2_592_000);
    assert_eq!(
        query_subscription(&hub, 4).unwrap().data.expiration,
        NOW + 2 * 31_536_000
    );
}

#[test]
fn month_plan_expiration_scenario() {
    let mut hub = proper_instantiate();
    create_organization(&mut hub, ORGANIZATION);
    let plan = create_plan(&mut hub, ORGANIZATION, 1, DurationUnit::Month, true);

    execute_subscribe_plan(&mut hub, USER.to_string(), NOW, plan).unwrap();
    assert_eq!(
        query_subscription(&hub, 1).unwrap().data.expiration,
        NOW + MONTH
    );

    // one second past the expiration, cancellation is rejected
    let err =
        execute_cancel_plan(&mut hub, USER.to_string(), NOW + MONTH + 1, 1).unwrap_err();
    assert_eq!(err, ContractError::AlreadyExpired);

    // at exactly the expiration it is still allowed
    execute_cancel_plan(&mut hub, USER.to_string(), NOW + MONTH, 1).unwrap();
}

#[test]
fn subscription_status_is_strict_about_expiration() {
    let mut hub = proper_instantiate();
    create_organization(&mut hub, ORGANIZATION);
    let plan = create_plan(&mut hub, ORGANIZATION, 1, DurationUnit::Day, true);

    execute_subscribe_plan(&mut hub, USER.to_string(), NOW, plan).unwrap();
    assert!(query_is_subscribed(&hub, USER.to_string(), plan, NOW + 86_399));
    assert!(!query_is_subscribed(&hub, USER.to_string(), plan, NOW + 86_400));
    assert!(!query_is_subscribed(&hub, USER.to_string(), plan, NOW + 86_401));
}

#[test]
fn zero_duration_plan_expires_immediately() {
    let mut hub = proper_instantiate();
    create_organization(&mut hub, ORGANIZATION);
    let plan = create_plan(&mut hub, ORGANIZATION, 0, DurationUnit::Month, true);

    execute_subscribe_plan(&mut hub, USER.to_string(), NOW, plan).unwrap();
    assert_eq!(query_subscription(&hub, 1).unwrap().data.expiration, NOW);
    assert!(!query_is_subscribed(&hub, USER.to_string(), plan, NOW));
}

#[test]
fn missing_records_are_not_found() {
    let mut hub = proper_instantiate();
    create_organization(&mut hub, ORGANIZATION);

    let err = query_organization(&hub, 2).unwrap_err();
    assert_eq!(
        err,
        ContractError::NotFound {
            kind: EntityKind::Organization,
            id: 2,
        }
    );

    let err = query_subscription_plan(&hub, 1).unwrap_err();
    assert_eq!(
        err,
        ContractError::NotFound {
            kind: EntityKind::SubscriptionPlan,
            id: 1,
        }
    );

    let err = query_subscription(&hub, 1).unwrap_err();
    assert_eq!(
        err,
        ContractError::NotFound {
            kind: EntityKind::Subscription,
            id: 1,
        }
    );

    let err = execute_subscribe_plan(&mut hub, USER.to_string(), NOW, 7).unwrap_err();
    assert_eq!(
        err,
        ContractError::NotFound {
            kind: EntityKind::SubscriptionPlan,
            id: 7,
        }
    );

    let err = execute_cancel_plan(&mut hub, USER.to_string(), NOW, 7).unwrap_err();
    assert_eq!(
        err,
        ContractError::NotFound {
            kind: EntityKind::Subscription,
            id: 7,
        }
    );

    let err = execute_create_subscription_plan(
        &mut hub,
        ORGANIZATION.to_string(),
        9,
        "Test Plan".to_string(),
        "Test plan is the best".to_string(),
        10_000,
        1,
        DurationUnit::Month,
        None,
        None,
        true,
        false,
    )
    .unwrap_err();
    assert_eq!(
        err,
        ContractError::NotFound {
            kind: EntityKind::Organization,
            id: 9,
        }
    );
}

#[test]
fn list_queries_answer_unknown_prefixes_with_empty_results() {
    let hub = proper_instantiate();

    assert_eq!(query_user_organizations(&hub, USER.to_string()).len(), 0);
    assert_eq!(
        query_user_subscriptions(&hub, USER.to_string(), None, None).len(),
        0
    );
    assert_eq!(
        query_subscription_plan_subscriptions(&hub, 1, None, None).len(),
        0
    );
    let res = query(
        &hub,
        NOW,
        QueryMsg::OrganizationSubscriptionPlans { organization_id: 1 },
    )
    .unwrap();
    match res {
        QueryResponse::SubscriptionPlans(rs) => assert_eq!(rs.len(), 0),
        _ => panic!("unexpected response"),
    }
    assert!(!query_is_subscribed(&hub, USER.to_string(), 1, NOW));
}

#[test]
fn user_subscriptions_paginate_by_plan_id() {
    let mut hub = proper_instantiate();
    create_organization(&mut hub, ORGANIZATION);
    let mut plans: Vec<u64> = Vec::new();
    for _ in 0..5 {
        plans.push(create_plan(&mut hub, ORGANIZATION, 1, DurationUnit::Month, true));
    }
    for plan in &plans {
        execute_subscribe_plan(&mut hub, USER.to_string(), NOW, *plan).unwrap();
    }

    let first = query_user_subscriptions(&hub, USER.to_string(), None, Some(2));
    assert_eq!(first.len(), 2);
    assert_eq!(first[0].data.plan_id, 1);
    assert_eq!(first[1].data.plan_id, 2);

    let rest = query_user_subscriptions(
        &hub,
        USER.to_string(),
        Some(first.last().unwrap().data.plan_id),
        None,
    );
    assert_eq!(rest.len(), 3);
    assert_eq!(rest[0].data.plan_id, 3);
    assert_eq!(rest[1].data.plan_id, 4);
    assert_eq!(rest[2].data.plan_id, 5);
}

#[test]
fn organization_record_survives_later_commands() {
    let mut hub = proper_instantiate();
    create_organization(&mut hub, ORGANIZATION);

    let before = query_organization(&hub, 1).unwrap();
    assert_eq!(before.data.owner, ORGANIZATION);

    let plan = create_plan(&mut hub, ORGANIZATION, 1, DurationUnit::Month, true);
    execute_subscribe_plan(&mut hub, USER.to_string(), NOW, plan).unwrap();
    execute_cancel_plan(&mut hub, USER.to_string(), NOW, 1).unwrap();
    execute(
        &mut hub,
        USER.to_string(),
        NOW,
        ExecuteMsg::CreateOrganization {
            name: "Second Test Organization".to_string(),
            description: "Second test organization is the best".to_string(),
            website: None,
            metadata: None,
        },
    )
    .unwrap();

    let after = query_organization(&hub, 1).unwrap();
    assert_eq!(after.data.owner, ORGANIZATION);
    assert_eq!(after.data.name, before.data.name);
    assert_eq!(after.data.description, before.data.description);
}

#[test]
fn optional_record_fields_are_kept() {
    let mut hub = proper_instantiate();
    execute_create_organization(
        &mut hub,
        ORGANIZATION.to_string(),
        "Test Organization".to_string(),
        "Test organization is the best".to_string(),
        Some("https://example.invalid".to_string()),
        Some(vec![("tier".to_string(), "gold".to_string())]),
    )
    .unwrap();

    let org = query_organization(&hub, 1).unwrap();
    assert_eq!(org.data.website, Some("https://example.invalid".to_string()));
    assert_eq!(
        org.data.metadata,
        Some(vec![("tier".to_string(), "gold".to_string())])
    );

    execute_create_subscription_plan(
        &mut hub,
        ORGANIZATION.to_string(),
        1,
        "Test Plan".to_string(),
        "Test plan is the best".to_string(),
        10_000,
        1,
        DurationUnit::Month,
        Some(vec!["first_feature".to_string()]),
        Some(vec![("trial".to_string(), "none".to_string())]),
        true,
        true,
    )
    .unwrap();

    let plan = query_subscription_plan(&hub, 1).unwrap();
    assert_eq!(plan.data.features, Some(vec!["first_feature".to_string()]));
    assert_eq!(
        plan.data.metadata,
        Some(vec![("trial".to_string(), "none".to_string())])
    );
    assert!(plan.data.cancelable);
    assert!(plan.data.refundable);
}
