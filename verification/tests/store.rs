use doppelkopf_store::errors::{StoreError, ValidationError};
use doppelkopf_store::store::DocumentStore;

fn fresh_store() -> DocumentStore {
    DocumentStore::new(String::from("/data/app"))
}

#[test]
fn write_then_read_round_trip() {
    let mut store = fresh_store();
    assert_eq!(store.write_document("doppelkopf-x.json", "abc"), Ok(()));
    assert_eq!(
        store.read_document("doppelkopf-x.json"),
        Ok(String::from("abc"))
    );
}

#[test]
fn second_write_overwrites() {
    let mut store = fresh_store();
    assert_eq!(store.write_document("doppelkopf-x.json", "first"), Ok(()));
    assert_eq!(store.write_document("doppelkopf-x.json", "second"), Ok(()));
    assert_eq!(
        store.read_document("doppelkopf-x.json"),
        Ok(String::from("second"))
    );
}

#[test]
fn delete_of_missing_document_succeeds() {
    let mut store = fresh_store();
    assert_eq!(store.delete_document("doppelkopf-x.json"), Ok(()));
}

#[test]
fn read_of_missing_document_is_not_found() {
    let store = fresh_store();
    assert_eq!(
        store.read_document("doppelkopf-x.json"),
        Err(StoreError::NotFound)
    );
}

#[test]
fn read_after_delete_is_not_found() {
    let mut store = fresh_store();
    assert_eq!(store.write_document("doppelkopf-x.json", "abc"), Ok(()));
    assert_eq!(store.delete_document("doppelkopf-x.json"), Ok(()));
    assert_eq!(
        store.read_document("doppelkopf-x.json"),
        Err(StoreError::NotFound)
    );
}

#[test]
fn list_keeps_only_prefixed_json_names() {
    let mut store = fresh_store();
    store.place_file("doppelkopf-a.json", "{}");
    store.place_file("b.json", "{}");
    store.place_file("doppelkopf-c.txt", "{}");
    assert_eq!(store.list_documents(), vec![String::from("doppelkopf-a.json")]);
}

#[test]
fn list_of_missing_directory_is_empty() {
    let store = fresh_store();
    assert_eq!(store.list_documents(), Vec::<String>::new());
}

#[test]
fn list_after_ensure_base_is_empty() {
    let mut store = fresh_store();
    store.ensure_base();
    assert_eq!(store.list_documents(), Vec::<String>::new());
}

#[test]
fn write_rejects_traversal_name_untouched() {
    let mut store = fresh_store();
    assert_eq!(
        store.write_document("doppelkopf-../../etc/passwd.json", "boom"),
        Err(StoreError::Validation(ValidationError::ForbiddenSequence))
    );
    // the rejection happened during validation: nothing was written, the
    // directory was not even created
    assert_eq!(store.list_documents(), Vec::<String>::new());
}

#[test]
fn read_rejects_invalid_name() {
    let store = fresh_store();
    assert_eq!(
        store.read_document("secrets.json"),
        Err(StoreError::Validation(ValidationError::MissingPrefix))
    );
}

#[test]
fn delete_rejects_invalid_name() {
    let mut store = fresh_store();
    assert_eq!(
        store.delete_document("doppelkopf-a.txt"),
        Err(StoreError::Validation(ValidationError::MissingJsonSuffix))
    );
}

#[test]
fn write_brings_directory_into_being() {
    let mut store = fresh_store();
    assert_eq!(store.list_documents(), Vec::<String>::new());
    assert_eq!(store.write_document("doppelkopf-x.json", "{}"), Ok(()));
    assert_eq!(store.list_documents(), vec![String::from("doppelkopf-x.json")]);
}

#[test]
fn base_path_returns_the_base() {
    let store = fresh_store();
    assert_eq!(store.base_path(), String::from("/data/app"));
}

#[test]
fn documents_are_kept_apart_by_name() {
    let mut store = fresh_store();
    assert_eq!(store.write_document("doppelkopf-a.json", "one"), Ok(()));
    assert_eq!(store.write_document("doppelkopf-b.json", "two"), Ok(()));
    assert_eq!(
        store.read_document("doppelkopf-a.json"),
        Ok(String::from("one"))
    );
    assert_eq!(
        store.read_document("doppelkopf-b.json"),
        Ok(String::from("two"))
    );
}
