use subscription_hub::error::ContractError;
use subscription_hub::hub::{instantiate, SubscriptionHub};
use subscription_hub::lifecycle::execute;
use subscription_hub::msg::{ExecuteMsg, InstantiateMsg, QueryMsg, QueryResponse};
use subscription_hub::queries::query;
use subscription_hub::state::DurationUnit;

const ADMIN: &str = "admin";
const ORGANIZATION: &str = "organization";
const USER: &str = "user";

const NOW: u64 = 1_571_797_419;

fn proper_instantiate() -> SubscriptionHub {
    instantiate(ADMIN.to_string(), InstantiateMsg {})
}

fn create_organization(hub: &mut SubscriptionHub, owner: &str) {
    execute(
        hub,
        owner.to_string(),
        NOW,
        ExecuteMsg::CreateOrganization {
            name: "Test Organization".to_string(),
            description: "Test organization is the best".to_string(),
            website: None,
            metadata: None,
        },
    )
    .unwrap();
}

fn create_subscription_plan(
    hub: &mut SubscriptionHub,
    owner: &str,
    organization_id: u32,
    cancelable: bool,
) {
    execute(
        hub,
        owner.to_string(),
        NOW,
        ExecuteMsg::CreateSubscriptionPlan {
            organization_id,
            name: "Test Plan".to_string(),
            description: "Test plan is the best".to_string(),
            price: 10_000,
            duration: 1,
            duration_unit: DurationUnit::Month,
            features: Some(vec![
                "first_feature".to_string(),
                "second_feature".to_string(),
            ]),
            metadata: None,
            cancelable,
            refundable: false,
        },
    )
    .unwrap();
}

#[test]
fn subscribe_plan_test_happy_path() {
    let mut hub = proper_instantiate();

    create_organization(&mut hub, ORGANIZATION);

    create_subscription_plan(&mut hub, ORGANIZATION, 1, false);

    execute(
        &mut hub,
        USER.to_string(),
        NOW,
        ExecuteMsg::SubscribePlan { plan_id: 1 },
    )
    .unwrap();

    let res = query(&hub, NOW, QueryMsg::Subscription { subscription_id: 1 }).unwrap();
    match res {
        QueryResponse::Subscription(res) => {
            assert_eq!(res.data.subscriber, USER);
            assert_eq!(res.data.plan_id, 1);
            assert_eq!(res.data.expiration, NOW + 2592000);
        },
        _ => panic!("unexpected response"),
    }

    let res = query(
        &hub,
        NOW,
        QueryMsg::IsSubscribed {
            user_address: USER.to_string(),
            plan_id: 1,
        },
    )
    .unwrap();
    match res {
        QueryResponse::Subscribed(subscribed) => assert_eq!(subscribed, true),
        _ => panic!("unexpected response"),
    }

    let res = query(
        &hub,
        NOW,
        QueryMsg::SubscriptionPlanSubscriptions {
            plan_id: 1,
            start_after: None,
            limit: None,
        },
    )
    .unwrap();
    match res {
        QueryResponse::Subscriptions(subs) => {
            assert_eq!(subs.len(), 1);
            assert_eq!(subs[0].data.subscriber, USER);
            assert_eq!(subs[0].data.plan_id, 1);
        },
        _ => panic!("unexpected response"),
    }
}

#[test]
fn test_existing_subscription() {
    let mut hub = proper_instantiate();

    create_organization(&mut hub, ORGANIZATION);

    create_subscription_plan(&mut hub, ORGANIZATION, 1, false);

    execute(
        &mut hub,
        USER.to_string(),
        NOW,
        ExecuteMsg::SubscribePlan { plan_id: 1 },
    )
    .unwrap();

    let err = execute(
        &mut hub,
        USER.to_string(),
        NOW,
        ExecuteMsg::SubscribePlan { plan_id: 1 },
    )
    .unwrap_err();
    assert_eq!(err, ContractError::AlreadySubscribed);
}
