use compute_telemetry::ids::GlobalId;
use compute_telemetry::stash::{
    upgrade, AclMode, CatalogItem, CatalogItemV1, CatalogItemValue, ItemKey, ItemValueV36,
    MigrationAction, MzAclItem, RoleId, RoleIdValue, SchemaId, SchemaIdValue, UpgradeError,
};

fn sample_item() -> (ItemKey, ItemValueV36) {
    (
        ItemKey { gid: Some(GlobalId::User(42)) },
        ItemValueV36 {
            schema_id: Some(SchemaId { value: Some(SchemaIdValue::User(66)) }),
            name: "v".to_string(),
            definition: Some(CatalogItem {
                value: Some(CatalogItemValue::V1(CatalogItemV1 {
                    create_sql: "CREATE VIEW v AS SELECT 1".to_string(),
                })),
            }),
            owner_id: Some(RoleId { value: Some(RoleIdValue::User(1)) }),
            privileges: vec![MzAclItem {
                grantee: Some(RoleId { value: Some(RoleIdValue::User(2)) }),
                grantor: Some(RoleId { value: Some(RoleIdValue::User(3)) }),
                acl_mode: Some(AclMode { bitflags: 55 }),
            }],
        },
    )
}

#[test]
fn migration_unwraps_the_definition() {
    let entries = vec![sample_item()];
    let actions = upgrade(&entries).unwrap();
    assert_eq!(actions.len(), 1);
    match &actions[0] {
        MigrationAction::Update(key, (new_key, value)) => {
            assert_eq!(*key, ItemKey { gid: Some(GlobalId::User(42)) });
            assert_eq!(new_key, key);
            assert_eq!(
                value.schema_id,
                Some(SchemaId { value: Some(SchemaIdValue::User(66)) })
            );
            assert_eq!(value.name, "v");
            assert_eq!(value.create_sql, "CREATE VIEW v AS SELECT 1");
            assert_eq!(value.owner_id, Some(RoleId { value: Some(RoleIdValue::User(1)) }));
            assert_eq!(value.privileges.len(), 1);
            assert_eq!(value.privileges[0].acl_mode, Some(AclMode { bitflags: 55 }));
        },
        other => panic!("expected an update, got {:?}", other),
    }
}

#[test]
fn migration_rejects_a_missing_definition() {
    let (key, mut value) = sample_item();
    value.definition = None;
    let entries = vec![(key, value)];
    assert!(matches!(upgrade(&entries), Err(UpgradeError::MissingDefinition)));
}
