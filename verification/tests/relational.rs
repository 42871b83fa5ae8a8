//! The relational row model, the embedded backend's decision kernel, the
//! allocator and the index sort, exercised end to end.

use kormir::allocator::allocate_indexes;
use kormir::database::{Event, EventDatabase, EventNonce};
use kormir::embedded::{
    add_announcement_event_id_step, add_attestation_event_id_step, announcement_record,
    recover_nonce_index, save_signatures_step,
};
use kormir::error::Error;
use kormir::sorting::sort_indexes;
use kormir::types::{OracleAnnouncement, OracleEvent};

fn announcement(id: &str, nonce_count: usize) -> OracleAnnouncement {
    OracleAnnouncement {
        announcement_signature: vec![1, 2, 3, 4],
        oracle_public_key: vec![7, 7, 7],
        oracle_event: OracleEvent {
            oracle_nonces: (0..nonce_count).map(|i| vec![i as u8, 0xAA]).collect(),
            event_maturity_epoch: 1_700_000_000,
            event_descriptor: vec![9, 9],
            is_enum: false,
            event_id: id.to_string(),
        },
    }
}

fn pairs(n: usize) -> Vec<(String, Vec<u8>)> {
    (0..n)
        .map(|i| (format!("digit-{}", i), vec![i as u8, 0x51]))
        .collect()
}

#[test]
fn sorting_orders_any_input() {
    assert_eq!(sort_indexes(vec![9, 3, 7, 3, 1]), vec![1, 3, 3, 7, 9]);
    assert_eq!(sort_indexes(vec![]), Vec::<u32>::new());
    assert_eq!(sort_indexes(vec![5]), vec![5]);
}

#[test]
fn allocation_blocks_are_contiguous() {
    let (block, next) = allocate_indexes(5, 3);
    assert_eq!(block, vec![5, 6, 7]);
    assert_eq!(next, 8);
    let (empty, same) = allocate_indexes(8, 0);
    assert!(empty.is_empty());
    assert_eq!(same, 8);
}

#[test]
fn database_announce_then_read_back_sorted_and_unsigned() {
    let mut db = EventDatabase::new(vec![7, 7, 7]);
    let indexes = db.get_next_nonce_indexes(3).unwrap();
    assert_eq!(indexes, vec![0, 1, 2]);
    let id = db
        .save_announcement(announcement("sports-final", 3), vec![2, 0, 1])
        .unwrap();
    assert_eq!(id, "sports-final");
    let data = db.get_event("sports-final".to_string()).unwrap();
    assert_eq!(data.indexes, vec![0, 1, 2]);
    assert!(data.signatures.is_empty());
    assert_eq!(data.announcement.oracle_public_key, vec![7, 7, 7]);
    assert_eq!(data.announcement.announcement_signature, vec![1, 2, 3, 4]);
    // the slot laid down for index 0 carries the nonce given beside 0:
    // the third position of the request, nonce point number one
    assert_eq!(data.announcement.oracle_event.oracle_nonces[0], vec![0, 0xAA]);
}

#[test]
fn database_rejects_duplicate_event_ids_and_reused_indexes() {
    let mut db = EventDatabase::new(vec![7]);
    db.save_announcement(announcement("one", 2), vec![0, 1])
        .unwrap();
    assert_eq!(
        db.save_announcement(announcement("one", 1), vec![2]),
        Err(Error::StorageFailure)
    );
    // a slot key may never be written twice
    assert_eq!(
        db.save_announcement(announcement("two", 2), vec![1, 2]),
        Err(Error::StorageFailure)
    );
    // nor repeat within one request
    assert_eq!(
        db.save_announcement(announcement("three", 2), vec![5, 5]),
        Err(Error::StorageFailure)
    );
    // the failed saves left no partial rows: the new ids are absent
    assert!(db.get_event("two".to_string()).is_none());
    assert!(db.get_event("three".to_string()).is_none());
}

#[test]
fn database_signing_is_exactly_once_and_positional() {
    let mut db = EventDatabase::new(vec![7]);
    db.save_announcement(announcement("evt", 3), vec![4, 2, 9])
        .unwrap();
    assert_eq!(
        db.save_signatures("evt".to_string(), pairs(2)).unwrap_err(),
        Error::InvalidOutcome
    );
    assert_eq!(
        db.save_signatures("missing".to_string(), pairs(3)).unwrap_err(),
        Error::NotFound
    );
    let first = db.save_signatures("evt".to_string(), pairs(3)).unwrap();
    assert_eq!(first.indexes, vec![2, 4, 9]);
    assert_eq!(first.signatures, pairs(3));
    let second = db.save_signatures("evt".to_string(), pairs(3));
    assert_eq!(second.unwrap_err(), Error::EventAlreadySigned);
    let data = db.get_event("evt".to_string()).unwrap();
    assert_eq!(data.indexes, first.indexes);
    assert_eq!(data.signatures, first.signatures);
}

#[test]
fn database_lists_every_event() {
    let mut db = EventDatabase::new(vec![7]);
    db.save_announcement(announcement("a", 1), vec![0]).unwrap();
    db.save_announcement(announcement("b", 2), vec![1, 2]).unwrap();
    let all = db.list_events();
    assert_eq!(all.len(), 2);
    assert_eq!(all[0].event_id, "a");
    assert_eq!(all[1].event_id, "b");
    assert_eq!(all[1].indexes, vec![1, 2]);
}

#[test]
fn database_publication_ids_are_field_fills() {
    let mut db = EventDatabase::new(vec![7]);
    db.save_announcement(announcement("pub", 1), vec![0]).unwrap();
    // an unknown id updates nothing, and is not an error
    db.add_announcement_event_id("missing".to_string(), "feed".to_string())
        .unwrap();
    db.add_announcement_event_id("pub".to_string(), "note-ann".to_string())
        .unwrap();
    db.add_attestation_event_id("pub".to_string(), "note-att".to_string())
        .unwrap();
    let data = db.get_event("pub".to_string()).unwrap();
    assert_eq!(data.announcement_event_id.as_deref(), Some("note-ann"));
    assert_eq!(data.attestation_event_id.as_deref(), Some("note-att"));
}

#[test]
fn database_restart_never_reissues_persisted_indexes() {
    // rows as a durable medium would hand them back: one event whose
    // slots took indexes 5, 6 and 7
    let ann = announcement("persisted", 3);
    let events = vec![Event {
        event_id: "persisted".to_string(),
        announcement_signature: ann.announcement_signature.clone(),
        oracle_event: announcement("persisted", 3).oracle_event,
        name: "persisted".to_string(),
        is_enum: false,
        announcement_event_id: None,
        attestation_event_id: None,
    }];
    let nonces = (0..3u32)
        .map(|i| EventNonce {
            id: 5 + i,
            event_id: "persisted".to_string(),
            index: 5 + i,
            nonce: vec![i as u8, 0xAA],
            outcome: None,
            signature: None,
        })
        .collect();
    let mut fresh = EventDatabase::from_rows(vec![7], events, nonces);
    let reissued = fresh.get_next_nonce_indexes(3).unwrap();
    assert_eq!(reissued, vec![8, 9, 10]);
    assert!(!reissued.contains(&5) && !reissued.contains(&6) && !reissued.contains(&7));
    // the reopened store still serves the persisted event
    let data = fresh.get_event("persisted".to_string()).unwrap();
    assert_eq!(data.indexes, vec![5, 6, 7]);
}

#[test]
fn embedded_counter_recovery_and_restart() {
    // first use: no counter record yet
    assert_eq!(recover_nonce_index(None), 0);
    let (issued, advanced) = allocate_indexes(recover_nonce_index(None), 3);
    assert_eq!(issued, vec![0, 1, 2]);
    // the advance is persisted; a fresh instance resumes past it
    let (fresh, _) = allocate_indexes(recover_nonce_index(Some(advanced)), 2);
    assert_eq!(fresh, vec![3, 4]);
}

#[test]
fn embedded_steps_mirror_the_store_protocol() {
    let record = announcement_record(announcement("kv", 2), vec![3, 1]);
    assert_eq!(record.event_id, "kv");
    assert_eq!(record.indexes, vec![1, 3]);
    assert!(record.signatures.is_empty());

    assert_eq!(
        save_signatures_step(None, pairs(2)).unwrap_err(),
        Error::NotFound
    );
    assert_eq!(
        save_signatures_step(Some(record.clone()), pairs(1)).unwrap_err(),
        Error::InvalidOutcome
    );
    let signed = save_signatures_step(Some(record.clone()), pairs(2)).unwrap();
    assert_eq!(signed.signatures, pairs(2));
    assert_eq!(signed.indexes, vec![1, 3]);
    assert_eq!(
        save_signatures_step(Some(signed.clone()), pairs(2)).unwrap_err(),
        Error::EventAlreadySigned
    );

    assert_eq!(
        add_announcement_event_id_step(None, "x".to_string()).unwrap_err(),
        Error::StorageFailure
    );
    let with_ann = add_announcement_event_id_step(Some(signed), "note-a".to_string()).unwrap();
    assert_eq!(with_ann.announcement_event_id.as_deref(), Some("note-a"));
    let with_att = add_attestation_event_id_step(Some(with_ann), "note-b".to_string()).unwrap();
    assert_eq!(with_att.attestation_event_id.as_deref(), Some("note-b"));
}

#[test]
fn database_event_with_no_slots_is_readable() {
    let mut db = EventDatabase::new(vec![7]);
    db.save_announcement(announcement("degenerate", 0), vec![])
        .unwrap();
    let data = db.get_event("degenerate".to_string()).unwrap();
    assert!(data.indexes.is_empty());
    assert!(data.signatures.is_empty());
}
