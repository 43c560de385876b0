use subscription_hub::error::ContractError;
use subscription_hub::hub::{instantiate, SubscriptionHub};
use subscription_hub::lifecycle::execute;
use subscription_hub::msg::{ExecuteMsg, InstantiateMsg, QueryMsg, QueryResponse};
use subscription_hub::queries::query;
use subscription_hub::state::DurationUnit;

const ADMIN: &str = "admin";
const ORGANIZATION: &str = "organization";
const ORGANIZATION2: &str = "organization2";

const NOW: u64 = 1_571_797_419;

fn proper_instantiate() -> SubscriptionHub {
    instantiate(ADMIN.to_string(), InstantiateMsg {})
}

fn create_organization(hub: &mut SubscriptionHub, owner: &str) {
    execute(
        hub,
        owner.to_string(),
        NOW,
        ExecuteMsg::CreateOrganization {
            name: "Test Organization".to_string(),
            description: "Test organization is the best".to_string(),
            website: None,
            metadata: None,
        },
    )
    .unwrap();
}

#[test]
fn create_subscription_plan_test_happy_path() {
    let mut hub = proper_instantiate();

    create_organization(&mut hub, ORGANIZATION);

    // create the first subscription plan
    execute(
        &mut hub,
        ORGANIZATION.to_string(),
        NOW,
        ExecuteMsg::CreateSubscriptionPlan {
            organization_id: 1,
            name: "Test Plan".to_string(),
            description: "Test plan is the best".to_string(),
            price: 10_000,
            duration: 1,
            duration_unit: DurationUnit::Month,
            features: Some(vec![
                "first_feature".to_string(),
                "second_feature".to_string(),
            ]),
            metadata: None,
            cancelable: false,
            refundable: false,
        },
    )
    .unwrap();

    // create the second subscription plan
    execute(
        &mut hub,
        ORGANIZATION.to_string(),
        NOW,
        ExecuteMsg::CreateSubscriptionPlan {
            organization_id: 1,
            name: "Second Test Plan".to_string(),
            description: "Second test plan is the best".to_string(),
            price: 50_000,
            duration: 6,
            duration_unit: DurationUnit::Month,
            features: Some(vec![
                "first_feature".to_string(),
                "second_feature".to_string(),
                "third_feature".to_string(),
                "fourth_feature".to_string(),
            ]),
            metadata: None,
            cancelable: false,
            refundable: false,
        },
    )
    .unwrap();

    // create the third subscription plan
    execute(
        &mut hub,
        ORGANIZATION.to_string(),
        NOW,
        ExecuteMsg::CreateSubscriptionPlan {
            organization_id: 1,
            name: "Third Test Plan".to_string(),
            description: "Third test plan is the best".to_string(),
            price: 250_000,
            duration: 1,
            duration_unit: DurationUnit::Year,
            features: Some(vec![
                "first_feature".to_string(),
                "second_feature".to_string(),
                "third_feature".to_string(),
                "fourth_feature".to_string(),
                "fifth_feature".to_string(),
                "sixth_feature".to_string(),
                "seventh_feature".to_string(),
                "eighth_feature".to_string(),
            ]),
            metadata: None,
            cancelable: false,
            refundable: false,
        },
    )
    .unwrap();

    let res = query(&hub, NOW, QueryMsg::SubscriptionPlan { plan_id: 1 }).unwrap();
    match res {
        QueryResponse::SubscriptionPlan(res) => {
            assert_eq!(res.data.name, "Test Plan");
            assert_eq!(res.data.description, "Test plan is the best");
            assert_eq!(res.data.price, 10_000);
            assert_eq!(res.data.duration, 1);
            assert_eq!(res.data.duration_unit, DurationUnit::Month);
        },
        _ => panic!("unexpected response"),
    }

    let res = query(&hub, NOW, QueryMsg::SubscriptionPlan { plan_id: 2 }).unwrap();
    match res {
        QueryResponse::SubscriptionPlan(res) => {
            assert_eq!(res.data.name, "Second Test Plan");
            assert_eq!(res.data.description, "Second test plan is the best");
            assert_eq!(res.data.price, 50_000);
            assert_eq!(res.data.duration, 6);
            assert_eq!(res.data.duration_unit, DurationUnit::Month);
        },
        _ => panic!("unexpected response"),
    }

    let res = query(&hub, NOW, QueryMsg::SubscriptionPlan { plan_id: 3 }).unwrap();
    match res {
        QueryResponse::SubscriptionPlan(res) => {
            assert_eq!(res.data.name, "Third Test Plan");
            assert_eq!(res.data.description, "Third test plan is the best");
            assert_eq!(res.data.price, 250_000);
            assert_eq!(res.data.duration, 1);
            assert_eq!(res.data.duration_unit, DurationUnit::Year);
            assert_eq!(res.data.features.unwrap().len(), 8);
        },
        _ => panic!("unexpected response"),
    }

    let res = query(
        &hub,
        NOW,
        QueryMsg::OrganizationSubscriptionPlans { organization_id: 1 },
    )
    .unwrap();
    match res {
        QueryResponse::SubscriptionPlans(res) => assert_eq!(res.len(), 3),
        _ => panic!("unexpected response"),
    }
}

#[test]
fn test_invalid_organization_owner() {
    let mut hub = proper_instantiate();

    create_organization(&mut hub, ORGANIZATION);

    // create a subscription plan with an invalid organization owner
    let err = execute(
        &mut hub,
        ORGANIZATION2.to_string(),
        NOW,
        ExecuteMsg::CreateSubscriptionPlan {
            organization_id: 1,
            name: "Test Plan".to_string(),
            description: "Test plan is the best".to_string(),
            price: 10_000,
            duration: 1,
            duration_unit: DurationUnit::Month,
            features: Some(vec![
                "first_feature".to_string(),
                "second_feature".to_string(),
            ]),
            metadata: None,
            cancelable: false,
            refundable: false,
        },
    )
    .unwrap_err();
    assert_eq!(err, ContractError::Unauthorized);
}
