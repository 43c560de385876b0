use subscription_hub::hub::{instantiate, SubscriptionHub};
use subscription_hub::lifecycle::execute;
use subscription_hub::msg::{ExecuteMsg, InstantiateMsg, QueryMsg, QueryResponse};
use subscription_hub::queries::query;

const ADMIN: &str = "admin";
const ORGANIZATION: &str = "organization";

const NOW: u64 = 1_571_797_419;

fn proper_instantiate() -> SubscriptionHub {
    instantiate(ADMIN.to_string(), InstantiateMsg {})
}

#[test]
fn create_organization_test_happy_path() {
    let mut hub = proper_instantiate();

    execute(
        &mut hub,
        ORGANIZATION.to_string(),
        NOW,
        ExecuteMsg::CreateOrganization {
            name: "Test Organization".to_string(),
            description: "Test organization is the best".to_string(),
            website: None,
            metadata: None,
        },
    )
    .unwrap();

    let organization2_metadata = vec![
        ("first_feature".to_string(), "true".to_string()),
        ("second_feature".to_string(), "false".to_string()),
    ];
    execute(
        &mut hub,
        ORGANIZATION.to_string(),
        NOW,
        ExecuteMsg::CreateOrganization {
            name: "Second Test Organization".to_string(),
            description: "Second test organization is the best".to_string(),
            website: None,
            metadata: Some(organization2_metadata.clone()),
        },
    )
    .unwrap();

    let res = query(&hub, NOW, QueryMsg::Organization { organization_id: 1 }).unwrap();
    match res {
        QueryResponse::Organization(res) => {
            assert_eq!(res.data.name, "Test Organization");
            assert_eq!(res.data.description, "Test organization is the best");
            assert_eq!(res.data.website, None);
            assert_eq!(res.data.metadata, None);
        },
        _ => panic!("unexpected response"),
    }

    let res = query(
        &hub,
        NOW,
        QueryMsg::UserOrganizations {
            user_address: ORGANIZATION.to_string(),
        },
    )
    .unwrap();
    match res {
        QueryResponse::Organizations(res) => {
            assert_eq!(res.len(), 2);
            assert_eq!(res[0].data.name, "Test Organization");
            assert_eq!(res[0].data.description, "Test organization is the best");
            assert_eq!(res[0].data.website, None);
            assert_eq!(res[0].data.metadata, None);
            assert_eq!(res[1].data.name, "Second Test Organization");
            assert_eq!(
                res[1].data.description,
                "Second test organization is the best"
            );
            assert_eq!(res[1].data.website, None);
            assert_eq!(res[1].data.metadata, Some(organization2_metadata));
        },
        _ => panic!("unexpected response"),
    }
}
