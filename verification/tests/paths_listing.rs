use doppelkopf_store::errors::{StoreError, ValidationError};
use doppelkopf_store::listing::{filter_storage_entries, is_storage_entry};
use doppelkopf_store::paths::{contained_in, join_under, resolve_document_path};

#[test]
fn join_inserts_separator() {
    assert_eq!(
        join_under("/data/app", "doppelkopf-x.json"),
        String::from("/data/app/doppelkopf-x.json")
    );
}

#[test]
fn containment_accepts_paths_under_base() {
    assert!(contained_in("/data/app", "/data/app/doppelkopf-x.json"));
}

#[test]
fn containment_rejects_other_directories() {
    assert!(!contained_in("/data/app", "/etc/passwd"));
}

#[test]
fn containment_rejects_the_base_itself() {
    assert!(!contained_in("/data/app", "/data/app"));
}

#[test]
fn containment_rejects_sibling_with_common_prefix() {
    assert!(!contained_in("/data/app", "/data/application/x"));
}

#[test]
fn resolve_builds_path_for_accepted_name() {
    assert_eq!(
        resolve_document_path("/data/app", "doppelkopf-x.json"),
        Ok(String::from("/data/app/doppelkopf-x.json"))
    );
}

#[test]
fn resolve_surfaces_validation_error() {
    assert_eq!(
        resolve_document_path("/data/app", "doppelkopf-../../etc/passwd.json"),
        Err(StoreError::Validation(ValidationError::ForbiddenSequence))
    );
}

#[test]
fn storage_entry_needs_prefix_and_suffix() {
    assert!(is_storage_entry("doppelkopf-a.json"));
    assert!(!is_storage_entry("b.json"));
    assert!(!is_storage_entry("doppelkopf-c.txt"));
    assert!(!is_storage_entry(""));
}

#[test]
fn filter_keeps_matching_names_in_order() {
    let entries = vec![
        Some(String::from("doppelkopf-a.json")),
        Some(String::from("b.json")),
        Some(String::from("doppelkopf-c.txt")),
        Some(String::from("doppelkopf-d.json")),
    ];
    assert_eq!(
        filter_storage_entries(&entries),
        vec![
            String::from("doppelkopf-a.json"),
            String::from("doppelkopf-d.json"),
        ]
    );
}

#[test]
fn filter_skips_undecodable_entries() {
    let entries = vec![None, Some(String::from("doppelkopf-a.json")), None];
    assert_eq!(
        filter_storage_entries(&entries),
        vec![String::from("doppelkopf-a.json")]
    );
}
