//! The storage service's request decisions: filename validation, object keys, status codes.

use et_services::storage::{
    agent_and_filename, default_storage_folder, default_storage_url, file_url, object_path, plan_put, plan_read,
    read_failure, store_location, AgentLookup, StorageConfig, StorageError, StoreFailure, StoreLocation,
};

#[test]
fn rejects_multi_component_filename_with_400() {
    let err = plan_put("agent-1", "nested/path.txt", AgentLookup::Registered).err().unwrap();
    assert!(matches!(err, StorageError::InvalidFilename));
    assert_eq!(err.status_code(), 400);
}

#[test]
fn rejects_unknown_agent_with_404() {
    let err = plan_put("missing-agent", "file.txt", AgentLookup::Unknown).err().unwrap();
    assert!(matches!(err, StorageError::AgentNotFound));
    assert_eq!(err.status_code(), 404);
}

#[test]
fn a_poisoned_registry_is_a_500() {
    let err = plan_put("agent-1", "file.txt", AgentLookup::Poisoned).err().unwrap();
    assert!(matches!(err, StorageError::AgentRegistryPoisoned));
    assert_eq!(err.status_code(), 500);
    assert_eq!(err.message(), "agent registry lock poisoned");
}

#[test]
fn the_filename_is_checked_before_the_registry() {
    let err = plan_put("missing-agent", "a/b", AgentLookup::Unknown).err().unwrap();
    assert!(matches!(err, StorageError::InvalidFilename));
}

#[test]
fn writes_go_to_the_agents_bucket() {
    let plan = plan_put("agent-1", "payload.txt", AgentLookup::Registered).ok().unwrap();
    assert_eq!(plan.key, "agent-1/payload.txt");
    assert!(!plan.is_image);
    let plan = plan_put("agent-1", "capture.png", AgentLookup::Registered).ok().unwrap();
    assert_eq!(plan.key, "agent-1/capture.png");
    assert!(plan.is_image);
}

#[test]
fn reads_validate_the_filename_too() {
    assert_eq!(plan_read("agent-1", "absent.txt").ok().unwrap(), "agent-1/absent.txt");
    assert!(matches!(plan_read("agent-1", "/etc/passwd").err().unwrap(), StorageError::InvalidFilename));
    assert!(matches!(plan_read("agent-1", "").err().unwrap(), StorageError::InvalidFilename));
    assert!(matches!(plan_read("agent-1", "./x").err().unwrap(), StorageError::InvalidFilename));
}

#[test]
fn single_components_follow_path_normalization() {
    assert!(agent_and_filename("a", "file.txt").is_ok());
    assert!(agent_and_filename("a", "file.txt/").is_ok());
    assert!(agent_and_filename("a", "..").is_ok());
    assert!(agent_and_filename("a", "a//b").is_err());
    assert!(agent_and_filename("a", "a/./b").is_err());
}

#[test]
fn head_missing_object_returns_404() {
    let err = read_failure(StoreFailure::NotFound);
    assert!(matches!(err, StorageError::ObjectNotFound));
    assert_eq!(err.status_code(), 404);
    let err = read_failure(StoreFailure::Other("disk on fire".to_string()));
    assert_eq!(err.status_code(), 500);
    assert_eq!(err.message(), "disk on fire");
}

#[test]
fn object_keys_are_agent_slash_filename() {
    assert_eq!(object_path("agent-1", "payload.txt"), "agent-1/payload.txt");
}

#[test]
fn local_directories_become_file_urls() {
    assert_eq!(file_url("/srv/storage"), "file:///srv/storage/");
    assert_eq!(file_url("relative/dir"), "file://relative/dir");
    let config = StorageConfig::local("/tmp/x");
    assert_eq!(config.url, "file:///tmp/x/");
    assert_eq!(StorageConfig::new("s3://bucket".to_string()).url, "s3://bucket");
}

#[test]
fn the_default_store_lives_under_the_project_root() {
    assert_eq!(default_storage_folder("/repo"), "/repo/services/ws-server/storage");
    assert_eq!(default_storage_folder("/repo/"), "/repo/services/ws-server/storage");
    assert_eq!(default_storage_url("/repo"), "file:///repo/services/ws-server/storage/");
}

#[test]
fn error_messages_name_the_failure() {
    assert_eq!(StorageError::InvalidFilename.message(), "invalid filename");
    assert_eq!(StorageError::AgentNotFound.message(), "agent not found");
    assert_eq!(StorageError::ObjectNotFound.message(), "no such object");
    assert_eq!(StorageError::Io("boom".to_string()).status_code(), 500);
}

#[test]
fn absolute_filenames_are_refused_for_reads_and_writes() {
    assert!(matches!(plan_read("agent-1", "/etc/passwd"), Err(StorageError::InvalidFilename)));
    assert!(matches!(plan_put("agent-1", "/x.png", AgentLookup::Registered), Err(StorageError::InvalidFilename)));
    assert!(matches!(plan_read("agent-1", "a/../b"), Err(StorageError::InvalidFilename)));
    assert!(plan_read("agent-1", "./x").is_err());
    assert_eq!(plan_read("agent-1", "x/").ok().unwrap(), "agent-1/x/");
}

#[test]
fn file_urls_name_a_local_directory_and_others_a_backend() {
    assert!(matches!(store_location("file:///tmp/store/"), Ok(StoreLocation::LocalDir(d)) if d == b"/tmp/store/".to_vec()));
    assert!(matches!(store_location("file:///srv/a%20b"), Ok(StoreLocation::LocalDir(d)) if d == b"/srv/a b".to_vec()));
    assert!(matches!(store_location("file:///srv/%FF"), Ok(StoreLocation::LocalDir(d)) if d == vec![b'/', b's', b'r', b'v', b'/', 0xff]));
    assert!(matches!(store_location("s3://bucket"), Ok(StoreLocation::Remote)));
    assert!(matches!(store_location("memory://"), Ok(StoreLocation::Remote)));
    assert!(matches!(store_location("not a url"), Err(StorageError::StoreUrl(_))));
}

#[test]
fn default_urls_are_directory_file_urls() {
    let url = default_storage_url("/srv/et");
    assert_eq!(url, "file:///srv/et/services/ws-server/storage/");
    assert!(file_url("relative/dir").starts_with("file://"));
}
