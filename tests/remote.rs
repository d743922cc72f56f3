use lease_runtime::key::Key;
use lease_runtime::remote::{
    bucket_path, bucket_prefix, key_in_bucket, plan_remote_insert, remote_insert_result,
    RemoteInsert,
};
use lease_runtime::store::{StoreError, StoreOutcome};

#[test]
fn bucket_paths() {
    assert_eq!(bucket_prefix("v1/mdc"), "v1/mdc/");
    assert_eq!(bucket_path("v1/mdc", &Key::new("Card A")), "v1/mdc/card-a");
    assert_eq!(key_in_bucket("v1/mdc", "v1/mdc/card-a"), Some("card-a".to_string()));
    assert_eq!(key_in_bucket("v1/mdc", "v1/other/card-a"), None);
    assert_eq!(key_in_bucket("v1/mdc", "v1"), None);
    assert_eq!(key_in_bucket("b", "b/"), Some(String::new()));
}

#[test]
fn remote_insert_plans() {
    assert_eq!(plan_remote_insert(None, b"v", 0), RemoteInsert::WriteIfAt(None));
    assert_eq!(
        plan_remote_insert(Some((b"v", 7)), b"v", 7),
        RemoteInsert::Report(StoreOutcome::Exists(7))
    );
    assert_eq!(plan_remote_insert(Some((b"v", 7)), b"w", 7), RemoteInsert::WriteIfAt(Some(7)));
    assert_eq!(plan_remote_insert(Some((b"v", 7)), b"v", 9), RemoteInsert::WriteIfAt(Some(7)));
    assert_eq!(plan_remote_insert(Some((b"v", 7)), b"v", 3), RemoteInsert::Retry);
    assert_eq!(plan_remote_insert(Some((b"v", u64::MAX)), b"w", u64::MAX), RemoteInsert::Retry);
}

#[test]
fn guarded_write_results() {
    assert_eq!(remote_insert_result(true, 42).unwrap(), StoreOutcome::Created(42));
    assert!(matches!(remote_insert_result(false, 42), Err(StoreError::Retry)));
}
