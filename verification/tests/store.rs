//! The in-memory backend, the record model, the request checks and the
//! error surface, exercised end to end.

use kormir::error::{Error, JsError};
use kormir::memory::MemoryStorage;
use kormir::requests::{CreateEnumEvent, CreateNumericEvent};
use kormir::types::{assemble_attestation, OracleAnnouncement, OracleEvent};

fn announcement(id: &str, nonce_count: usize) -> OracleAnnouncement {
    OracleAnnouncement {
        announcement_signature: vec![1, 2, 3, 4],
        oracle_public_key: vec![7, 7, 7],
        oracle_event: OracleEvent {
            oracle_nonces: (0..nonce_count).map(|i| vec![i as u8, 0xAA]).collect(),
            event_maturity_epoch: 1_700_000_000,
            event_descriptor: vec![9, 9],
            is_enum: true,
            event_id: id.to_string(),
        },
    }
}

fn pairs(n: usize) -> Vec<(String, Vec<u8>)> {
    (0..n)
        .map(|i| (format!("outcome-{}", i), vec![i as u8, 0x51]))
        .collect()
}

#[test]
fn memory_allocations_are_disjoint_and_contiguous() {
    let mut store = MemoryStorage::new();
    let a = store.get_next_nonce_indexes(3).unwrap();
    let b = store.get_next_nonce_indexes(2).unwrap();
    let c = store.get_next_nonce_indexes(4).unwrap();
    assert_eq!(a, vec![0, 1, 2]);
    assert_eq!(b, vec![3, 4]);
    assert_eq!(c, vec![5, 6, 7, 8]);
    let mut all: Vec<u32> = Vec::new();
    all.extend(&a);
    all.extend(&b);
    all.extend(&c);
    let mut deduped = all.clone();
    deduped.sort();
    deduped.dedup();
    assert_eq!(deduped.len(), a.len() + b.len() + c.len());
}

#[test]
fn memory_saved_announcement_is_readable_sorted_and_unsigned() {
    let mut store = MemoryStorage::new();
    let id = store
        .save_announcement(announcement("btc-2030", 3), vec![7, 5, 6])
        .unwrap();
    assert_eq!(id, "btc-2030");
    let data = store.get_event("btc-2030".to_string()).unwrap();
    assert_eq!(data.indexes, vec![5, 6, 7]);
    assert!(data.signatures.is_empty());
    assert_eq!(data.announcement.oracle_event.event_id, "btc-2030");
    assert_eq!(data.announcement_event_id, None);
    assert_eq!(data.attestation_event_id, None);
}

#[test]
fn memory_duplicate_event_id_is_a_storage_failure() {
    let mut store = MemoryStorage::new();
    store
        .save_announcement(announcement("dup", 1), vec![0])
        .unwrap();
    let again = store.save_announcement(announcement("dup", 1), vec![1]);
    assert_eq!(again, Err(Error::StorageFailure));
    // the failed save left the stored record alone
    let data = store.get_event("dup".to_string()).unwrap();
    assert_eq!(data.indexes, vec![0]);
}

#[test]
fn memory_get_event_unknown_id_returns_none() {
    let store = MemoryStorage::new();
    assert!(store.get_event("missing".to_string()).is_none());
}

#[test]
fn memory_save_signatures_unknown_id_is_not_found() {
    let mut store = MemoryStorage::new();
    let r = store.save_signatures("missing".to_string(), pairs(1));
    assert_eq!(r.unwrap_err(), Error::NotFound);
}

#[test]
fn memory_pair_count_mismatch_is_invalid_outcome_and_changes_nothing() {
    let mut store = MemoryStorage::new();
    store
        .save_announcement(announcement("evt", 3), vec![0, 1, 2])
        .unwrap();
    let r = store.save_signatures("evt".to_string(), pairs(2));
    assert_eq!(r.unwrap_err(), Error::InvalidOutcome);
    let data = store.get_event("evt".to_string()).unwrap();
    assert!(data.signatures.is_empty());
}

#[test]
fn memory_second_signing_fails_and_preserves_the_first() {
    let mut store = MemoryStorage::new();
    store
        .save_announcement(announcement("evt", 2), vec![0, 1])
        .unwrap();
    let first = store.save_signatures("evt".to_string(), pairs(2)).unwrap();
    assert_eq!(first.signatures, pairs(2));
    let second = store.save_signatures("evt".to_string(), pairs(2));
    assert_eq!(second.unwrap_err(), Error::EventAlreadySigned);
    let data = store.get_event("evt".to_string()).unwrap();
    assert_eq!(data.signatures, first.signatures);
    assert_eq!(data.indexes, first.indexes);
}

#[test]
fn memory_round_trip_matches_inputs_in_ascending_index_order() {
    let mut store = MemoryStorage::new();
    let mut indexes = store.get_next_nonce_indexes(3).unwrap();
    indexes.reverse();
    store
        .save_announcement(announcement("round-trip", 3), indexes)
        .unwrap();
    let signed = store
        .save_signatures("round-trip".to_string(), pairs(3))
        .unwrap();
    let data = store.get_event("round-trip".to_string()).unwrap();
    assert_eq!(data.indexes, vec![0, 1, 2]);
    assert_eq!(data.signatures, pairs(3));
    assert_eq!(signed.indexes, data.indexes);
    assert_eq!(signed.signatures, data.signatures);
}

#[test]
fn attestation_is_assembled_from_signed_pairs_only() {
    let mut store = MemoryStorage::new();
    store
        .save_announcement(announcement("att", 2), vec![0, 1])
        .unwrap();
    let unsigned = store.get_event("att".to_string()).unwrap();
    assert!(assemble_attestation(&unsigned).is_none());
    store.save_signatures("att".to_string(), pairs(2)).unwrap();
    let signed = store.get_event("att".to_string()).unwrap();
    let att = assemble_attestation(&signed).unwrap();
    assert_eq!(att.event_id, "att");
    assert_eq!(att.oracle_public_key, vec![7, 7, 7]);
    assert_eq!(att.outcomes, vec!["outcome-0", "outcome-1"]);
    assert_eq!(att.signatures, vec![vec![0, 0x51], vec![1, 0x51]]);
}

#[test]
fn enum_request_needs_an_outcome_and_a_future_maturity() {
    let ok = CreateEnumEvent {
        event_id: "e".to_string(),
        outcomes: vec!["yes".to_string(), "no".to_string()],
        event_maturity_epoch: 100,
    };
    assert!(ok.validate(100));
    assert!(!ok.validate(101));
    let empty = CreateEnumEvent {
        event_id: "e".to_string(),
        outcomes: vec![],
        event_maturity_epoch: 100,
    };
    assert!(!empty.validate(50));
}

#[test]
fn numeric_request_rejects_zero_digits() {
    let zero = CreateNumericEvent {
        event_id: "n".to_string(),
        num_digits: Some(0),
        is_signed: None,
        precision: None,
        unit: "usd".to_string(),
        event_maturity_epoch: 100,
    };
    assert!(!zero.validate(50));
    let defaulted = CreateNumericEvent {
        event_id: "n".to_string(),
        num_digits: None,
        is_signed: Some(true),
        precision: Some(2),
        unit: "usd".to_string(),
        event_maturity_epoch: 100,
    };
    assert!(defaulted.validate(100));
    assert!(!defaulted.validate(101));
}

#[test]
fn error_surface_round_trips_but_for_the_publication_variant() {
    assert_eq!(JsError::from(Error::NotFound), JsError::NotFound);
    assert_eq!(JsError::from(Error::InvalidOutcome), JsError::InvalidOutcome);
    assert_eq!(Error::from(JsError::EventAlreadySigned), Error::EventAlreadySigned);
    assert_eq!(Error::from(JsError::StorageFailure), Error::StorageFailure);
    assert_eq!(Error::from(JsError::Nostr), Error::Internal);
    assert_eq!(Error::from(JsError::Internal), Error::Internal);
}

#[test]
fn clock_reads_a_plausible_epoch() {
    // seconds since the Unix epoch: after 2020, and monotone enough for
    // a single test to see equal or increasing values
    let a = kormir::now();
    let b = kormir::now();
    assert!(a >= 1_577_836_800);
    assert!(b >= a);
}
