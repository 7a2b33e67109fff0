//! The migration engine: loading, activation and runs.

use many_core::config::{load_enable_all_regular_migrations, load_migrations};
use many_core::migration::{InnerMigration, Metadata, Migration, Status, StepAction};
use many_core::storage::Storage;

fn registry() -> Vec<InnerMigration> {
    vec![
        InnerMigration::new_initialize(
            StepAction::SetMarker(b"/config/marker".to_vec(), b"1".to_vec()),
            String::from("marker"),
            String::from("records an activation marker"),
        ),
        InnerMigration::new_hotfix(
            b"bad".to_vec(),
            b"good".to_vec(),
            String::from("payload_fix"),
            String::from("rewrites one known payload"),
        ),
    ]
}

#[test]
fn load_known_names() {
    let config = "[{\"type\": \"marker\", \"block_height\": 3}]";
    let ms = load_migrations(&registry(), config).unwrap();
    assert_eq!(ms.migrations.len(), 1);
    assert_eq!(ms.migrations[0].metadata.block_height, 3);
    assert!(ms.migrations[0].is_enabled());
}

#[test]
fn load_unknown_name_fails() {
    let config = "[{\"type\": \"unheard_of\", \"block_height\": 3}]";
    let err = load_migrations(&registry(), config).unwrap_err();
    assert!(err.contains("unheard_of"));
}

#[test]
fn load_malformed_document_fails() {
    assert!(load_migrations(&registry(), "not json").is_err());
    assert!(load_migrations(&registry(), "{\"type\": 4}").is_err());
}

#[test]
fn enable_all_regular_skips_hotfixes() {
    let ms = load_enable_all_regular_migrations(&registry());
    assert_eq!(ms.migrations.len(), 2);
    assert!(ms.migrations[0].is_enabled());
    assert!(!ms.migrations[1].is_enabled());
}

#[test]
fn activation_is_monotone() {
    let config = "[{\"type\": \"marker\", \"block_height\": 10}]";
    let mut ms = load_migrations(&registry(), config).unwrap();
    let name = String::from("marker");
    let mut storage = Storage::new();

    ms.update_at_height(&mut storage, 9).unwrap();
    assert!(!ms.is_active(&name));
    ms.update_at_height(&mut storage, 10).unwrap();
    assert!(ms.is_active(&name));
    ms.update_at_height(&mut storage, 11).unwrap();
    assert!(ms.is_active(&name));
}

#[test]
fn initialize_writes_marker_at_its_height() {
    let config = "[{\"type\": \"marker\", \"block_height\": 2}]";
    let mut ms = load_migrations(&registry(), config).unwrap();
    let mut storage = Storage::new();
    ms.update_at_height(&mut storage, 1).unwrap();
    assert!(storage.get(&b"/config/marker".to_vec()).is_none());
    ms.update_at_height(&mut storage, 2).unwrap();
    assert_eq!(storage.get(&b"/config/marker".to_vec()), Some(b"1".to_vec()));
}

#[test]
fn hotfix_rewrites_its_payload_at_its_height() {
    let m = Migration::new(
        InnerMigration::new_hotfix(
            b"bad".to_vec(),
            b"good".to_vec(),
            String::from("payload_fix"),
            String::from("rewrites one known payload"),
        ),
        Metadata { block_height: 4, issue: None },
        Status::Enabled,
    );
    assert_eq!(m.hotfix(&b"bad".to_vec(), 4), Some(b"good".to_vec()));
    assert_eq!(m.hotfix(&b"bad".to_vec(), 5), None);
    assert_eq!(m.hotfix(&b"other".to_vec(), 4), None);
}

#[test]
fn disable_and_enable_toggle() {
    let mut m = Migration::new(
        registry().remove(0),
        Metadata { block_height: 1, issue: None },
        Status::Enabled,
    );
    assert!(m.is_enabled());
    m.disable();
    assert!(!m.is_enabled());
    m.enable();
    assert!(m.is_enabled());
    assert_eq!(m.name().as_str(), "marker");
    assert_eq!(m.description().as_str(), "records an activation marker");
}
