//! In-memory backend: the reference implementation of the store. It keeps
//! whole projections keyed by a generated numeric record key, issues nonce
//! indexes from a plain cursor, and persists nothing.

use vstd::prelude::*;

use crate::allocator::{allocate_indexes, contiguous_from};
use crate::error::Error;
use crate::sorting::{sort_indexes, sorted};
use crate::types::{clone_signature_list, OracleAnnouncement, OracleAnnouncementView,
    OracleEventData, OracleEventDataView};

verus! {

/// Relies on getrandom::getrandom to fill four bytes with entropy, read
/// back in big-endian order. The value depends on the operating system's
/// randomness source, so nothing is promised of it; a source failure is
/// surfaced as a storage failure.
#[verifier::external_body]
fn random_u32() -> Result<u32, Error> {
    let mut bytes: [u8; 4] = [0; 4];
    match getrandom::getrandom(&mut bytes) {
        Ok(()) => Ok(u32::from_be_bytes(bytes)),
        Err(_) => Err(Error::StorageFailure),
    }
}

/// Some stored record carries the event id `id`.
pub open spec fn has_event(records: Seq<(u32, OracleEventDataView)>, id: Seq<char>) -> bool {
    exists|i: int| 0 <= i < records.len() && #[trigger] records[i].1.event_id == id
}

/// Position of the record carrying `id`; meaningful only under
/// [`has_event`], unambiguous once event ids are unique.
pub open spec fn record_pos(records: Seq<(u32, OracleEventDataView)>, id: Seq<char>) -> int {
    choose|i: int| 0 <= i < records.len() && #[trigger] records[i].1.event_id == id
}

/// What a read of `id` returns: the one record carrying it, if any.
pub open spec fn lookup(records: Seq<(u32, OracleEventDataView)>, id: Seq<char>) -> Option<
    OracleEventDataView,
> {
    if has_event(records, id) {
        Some(records[record_pos(records, id)].1)
    } else {
        None
    }
}

/// No two records carry the same event id.
pub open spec fn unique_event_ids(records: Seq<(u32, OracleEventDataView)>) -> bool {
    forall|i: int, j: int|
        0 <= i < j < records.len() ==> records[i].1.event_id != records[j].1.event_id
}

/// A record as it stands right after a successful announcement save: the
/// announcement as given, under its own event id, the indexes in ascending
/// order, no signatures, and no publication identifiers yet.
pub open spec fn is_announced_record(
    d: OracleEventDataView,
    ann: OracleAnnouncementView,
    idx: Seq<u32>,
) -> bool {
    &&& d.event_id == ann.oracle_event.event_id
    &&& d.announcement == ann
    &&& sorted(d.indexes)
    &&& d.indexes.to_multiset() == idx.to_multiset()
    &&& d.indexes.len() == idx.len()
    &&& d.signatures.len() == 0
    &&& d.announcement_event_id is None
    &&& d.attestation_event_id is None
}

/// A record after signing: as before, with the (outcome, signature) pairs
/// written in slot order.
pub open spec fn signed_record(d: OracleEventDataView, sigs: Seq<(Seq<char>, Seq<u8>)>)
    -> OracleEventDataView {
    OracleEventDataView {
        signatures: sigs,
        ..d
    }
}

/// Mathematical state of a [`MemoryStorage`]: the nonce cursor and the
/// stored records in insertion order.
pub struct MemoryStorageView {
    pub current_index: u32,
    pub records: Seq<(u32, OracleEventDataView)>,
}

/// In-memory event store: a nonce cursor and a list of records, each a
/// whole projection under a generated numeric key.
pub struct MemoryStorage {
    current_index: u32,
    data: Vec<(u32, OracleEventData)>,
}

/// Finds the position of the record carrying `event_id`.
fn find_record(data: &Vec<(u32, OracleEventData)>, event_id: &String) -> (r: Option<usize>)
    ensures
        match r {
            Some(i) => i < data@.len() && data@[i as int].1.event_id@ == event_id@,
            None => forall|j: int|
                0 <= j < data@.len() ==> data@[j].1.event_id@ != event_id@,
        },
{
    let mut i: usize = 0;
    while i < data.len()
        invariant
            i <= data@.len(),
            forall|j: int| 0 <= j < i ==> data@[j].1.event_id@ != event_id@,
        decreases data@.len() - i,
    {
        if data[i].1.event_id == *event_id {
            return Some(i);
        }
        i = i + 1;
    }
    None
}

/// A match found at position `i` of the concrete record list is a match
/// in the model, at the same position.
proof fn lemma_found(v: Vec<(u32, OracleEventData)>, i: int, id: Seq<char>)
    requires
        0 <= i < v@.len(),
        v@[i].1.event_id@ == id,
    ensures
        has_event(v.deep_view(), id),
        v.deep_view()[i].1 == v@[i].1@,
        v.deep_view()[i].0 == v@[i].0,
{
    assert(v.deep_view()[i] == v@[i].deep_view());
    assert(v.deep_view()[i].1.event_id == id);
}

/// No match in the concrete record list means none in the model.
proof fn lemma_not_found(v: Vec<(u32, OracleEventData)>, id: Seq<char>)
    requires
        forall|j: int| 0 <= j < v@.len() ==> v@[j].1.event_id@ != id,
    ensures
        !has_event(v.deep_view(), id),
{
    assert forall|i: int| 0 <= i < v.deep_view().len() implies v.deep_view()[i].1.event_id
        != id by {
        assert(v.deep_view()[i] == v@[i].deep_view());
    }
}

/// With unique event ids, a record carrying `id` at position `i` is the
/// record that [`record_pos`] picks.
proof fn lemma_pos_unique(records: Seq<(u32, OracleEventDataView)>, i: int, id: Seq<char>)
    requires
        unique_event_ids(records),
        0 <= i < records.len(),
        records[i].1.event_id == id,
    ensures
        has_event(records, id),
        record_pos(records, id) == i,
{
    assert(has_event(records, id));
    let p = record_pos(records, id);
    if p < i {
        assert(records[p].1.event_id != records[i].1.event_id);
    } else if p > i {
        assert(records[i].1.event_id != records[p].1.event_id);
    }
}

impl View for MemoryStorage {
    type V = MemoryStorageView;

    closed spec fn view(&self) -> MemoryStorageView {
        MemoryStorageView {
            current_index: self.current_index,
            records: self.data.deep_view(),
        }
    }
}

impl MemoryStorage {
    /// Stored event ids are unique, as a successful announcement save
    /// demands the id be fresh.
    pub open spec fn inv(&self) -> bool {
        unique_event_ids(self@.records)
    }

    /// A fresh store: no records, nonce cursor at zero.
    pub fn new() -> (r: Self)
        ensures
            r.inv(),
            r@.current_index == 0,
            r@.records.len() == 0,
    {
        let r = MemoryStorage { current_index: 0, data: Vec::new() };
        proof {
            assert(r@.records =~= Seq::<(u32, OracleEventDataView)>::empty());
        }
        r
    }

    /// Issues the next `num` nonce indexes: the contiguous block at the
    /// cursor, which moves past it, so no later request can see any of
    /// them again.
    /// The request must fit under the cursor's 32-bit ceiling.
    pub fn get_next_nonce_indexes(&mut self, num: usize) -> (r: Result<Vec<u32>, Error>)
        requires
            old(self)@.current_index + num <= u32::MAX,
        ensures
            final(self).inv() == old(self).inv(),
            r is Ok,
            contiguous_from(r.unwrap()@, old(self)@.current_index, num as nat),
            final(self)@.current_index == old(self)@.current_index + num,
            final(self)@.records == old(self)@.records,
    {
        let (indexes, next) = allocate_indexes(self.current_index, num);
        self.current_index = next;
        Ok(indexes)
    }

    /// Saves an announcement: draws a random record key, rejects an event
    /// id that is already present, and otherwise appends one record that
    /// holds the announcement, the indexes in ascending order, and no
    /// signatures. Returns the external event id. On any error the store
    /// is unchanged.
    pub fn save_announcement(
        &mut self,
        announcement: OracleAnnouncement,
        indexes: Vec<u32>,
    ) -> (r: Result<String, Error>)
        requires
            old(self).inv(),
            indexes@.len() == announcement@.oracle_event.oracle_nonces.len(),
        ensures
            final(self).inv(),
            r is Err ==> final(self)@ == old(self)@ && r == Err::<String, Error>(
                Error::StorageFailure,
            ),
            has_event(old(self)@.records, announcement@.oracle_event.event_id) ==> r is Err,
            r is Ok ==> {
                &&& !has_event(old(self)@.records, announcement@.oracle_event.event_id)
                &&& r.unwrap()@ == announcement@.oracle_event.event_id
                &&& final(self)@.records.len() == old(self)@.records.len() + 1
                &&& final(self)@.records.take(old(self)@.records.len() as int) == old(
                    self,
                )@.records
                &&& is_announced_record(
                    final(self)@.records.last().1,
                    announcement@,
                    indexes@,
                )
                &&& final(self)@.current_index == old(self)@.current_index
            },
    {
        let key = match random_u32() {
            Ok(k) => k,
            Err(e) => {
                return Err(Error::StorageFailure);
            },
        };
        self.save_announcement_with_key(key, announcement, indexes)
    }

    /// The deterministic half of an announcement save, once a record key
    /// is in hand: succeeds exactly when the event id is not yet present.
    pub fn save_announcement_with_key(
        &mut self,
        key: u32,
        announcement: OracleAnnouncement,
        indexes: Vec<u32>,
    ) -> (r: Result<String, Error>)
        requires
            old(self).inv(),
            indexes@.len() == announcement@.oracle_event.oracle_nonces.len(),
        ensures
            final(self).inv(),
            r is Err <==> has_event(old(self)@.records, announcement@.oracle_event.event_id),
            r is Err ==> final(self)@ == old(self)@ && r == Err::<String, Error>(
                Error::StorageFailure,
            ),
            r is Ok ==> {
                &&& r.unwrap()@ == announcement@.oracle_event.event_id
                &&& final(self)@.records.len() == old(self)@.records.len() + 1
                &&& final(self)@.records.take(old(self)@.records.len() as int) == old(
                    self,
                )@.records
                &&& final(self)@.records.last().0 == key
                &&& is_announced_record(
                    final(self)@.records.last().1,
                    announcement@,
                    indexes@,
                )
                &&& final(self)@.current_index == old(self)@.current_index
            },
    {
        if let Some(i) = find_record(&self.data, &announcement.oracle_event.event_id) {
            proof {
                lemma_found(self.data, i as int, announcement@.oracle_event.event_id);
            }
            return Err(Error::StorageFailure);
        }
        proof {
            lemma_not_found(self.data, announcement@.oracle_event.event_id);
        }
        let event_id = announcement.oracle_event.event_id.clone();
        let record = OracleEventData {
            event_id: announcement.oracle_event.event_id.clone(),
            announcement,
            indexes: sort_indexes(indexes),
            signatures: Vec::new(),
            announcement_event_id: None,
            attestation_event_id: None,
        };
        self.data.push((key, record));
        proof {
            let records = self@.records;
            let old_records = old(self)@.records;
            assert(records.len() == old_records.len() + 1);
            assert forall|j: int| 0 <= j < old_records.len() implies records[j]
                == old_records[j] by {}
            assert(records.take(old_records.len() as int) =~= old_records);
            assert(records.last().1.signatures =~= Seq::<(Seq<char>, Seq<u8>)>::empty());
        }
        Ok(event_id)
    }

    /// Writes the (outcome, signature) pairs of a realized event, exactly
    /// once: fails with `NotFound` for an unknown id, `InvalidOutcome`
    /// when the pair count differs from the slot count, and
    /// `EventAlreadySigned` when a signature is already stored; each
    /// failure leaves the store unchanged. On success the pairs are stored
    /// in slot order and the refreshed projection is returned.
    pub fn save_signatures(
        &mut self,
        event_id: String,
        sigs: Vec<(String, Vec<u8>)>,
    ) -> (r: Result<OracleEventData, Error>)
        requires
            old(self).inv(),
        ensures
            final(self).inv(),
            r is Err ==> final(self)@ == old(self)@,
            !has_event(old(self)@.records, event_id@) ==> r == Err::<OracleEventData, Error>(
                Error::NotFound,
            ),
            has_event(old(self)@.records, event_id@) && sigs@.len() != lookup(
                old(self)@.records,
                event_id@,
            ).unwrap().indexes.len() ==> r == Err::<OracleEventData, Error>(
                Error::InvalidOutcome,
            ),
            has_event(old(self)@.records, event_id@) && sigs@.len() == lookup(
                old(self)@.records,
                event_id@,
            ).unwrap().indexes.len() && lookup(
                old(self)@.records,
                event_id@,
            ).unwrap().signatures.len() > 0 ==> r == Err::<OracleEventData, Error>(
                Error::EventAlreadySigned,
            ),
            has_event(old(self)@.records, event_id@) && sigs@.len() == lookup(
                old(self)@.records,
                event_id@,
            ).unwrap().indexes.len() && lookup(
                old(self)@.records,
                event_id@,
            ).unwrap().signatures.len() == 0 ==> {
                let i = record_pos(old(self)@.records, event_id@);
                let d = signed_record(old(self)@.records[i].1, sigs.deep_view());
                &&& r is Ok
                &&& r.unwrap()@ == d
                &&& final(self)@.records == old(self)@.records.update(
                    i,
                    (old(self)@.records[i].0, d),
                )
                &&& final(self)@.current_index == old(self)@.current_index
            },
    {
        let pos = match find_record(&self.data, &event_id) {
            Some(i) => i,
            None => {
                proof {
                    lemma_not_found(self.data, event_id@);
                }
                return Err(Error::NotFound);
            },
        };
        proof {
            lemma_found(self.data, pos as int, event_id@);
            lemma_pos_unique(self@.records, pos as int, event_id@);
        }
        if sigs.len() != self.data[pos].1.indexes.len() {
            return Err(Error::InvalidOutcome);
        }
        if self.data[pos].1.signatures.len() > 0 {
            return Err(Error::EventAlreadySigned);
        }
        let key = self.data[pos].0;
        let mut record = self.data[pos].1.clone();
        record.signatures = clone_signature_list(&sigs);
        let returned = record.clone();
        self.data.set(pos, (key, record));
        proof {
            let i = pos as int;
            let old_records = old(self)@.records;
            let d = signed_record(old_records[i].1, sigs.deep_view());
            assert(returned@ == d);
            assert(self@.records =~= old_records.update(i, (old_records[i].0, d)));
        }
        Ok(returned)
    }

    /// Reads the latest committed projection of `event_id`: the stored
    /// record, or `None` for an unknown id — never an error.
    pub fn get_event(&self, event_id: String) -> (r: Option<OracleEventData>)
        requires
            self.inv(),
        ensures
            match lookup(self@.records, event_id@) {
                Some(d) => r is Some && r.unwrap()@ == d,
                None => r is None,
            },
    {
        match find_record(&self.data, &event_id) {
            Some(i) => {
                proof {
                    lemma_found(self.data, i as int, event_id@);
                    lemma_pos_unique(self@.records, i as int, event_id@);
                }
                Some(self.data[i].1.clone())
            },
            None => {
                proof {
                    lemma_not_found(self.data, event_id@);
                }
                None
            },
        }
    }
}

} // verus!

verus! {

/// Law: a saved announcement is immediately readable. A record appended
/// by a successful announcement save is what a lookup of its event id
/// returns: the announcement as given, the requested indexes in ascending
/// order, and no signatures.
pub proof fn lemma_announced_then_visible(
    records: Seq<(u32, OracleEventDataView)>,
    key: u32,
    d: OracleEventDataView,
    ann: OracleAnnouncementView,
    idx: Seq<u32>,
)
    requires
        !has_event(records, ann.oracle_event.event_id),
        is_announced_record(d, ann, idx),
    ensures
        lookup(records.push((key, d)), ann.oracle_event.event_id) == Some(d),
        d.announcement == ann,
        sorted(d.indexes),
        d.indexes.to_multiset() == idx.to_multiset(),
        d.signatures.len() == 0,
{
    let id = ann.oracle_event.event_id;
    let rs = records.push((key, d));
    assert(rs[records.len() as int].1.event_id == id);
    assert(has_event(rs, id));
    let p = record_pos(rs, id);
    if p < records.len() {
        assert(records[p].1.event_id == id);
        assert(false);
    }
}

/// Law: signing is at-most-once. Once a record carries the pairs of a
/// successful signature save — at least one — a lookup of its event id
/// finds a signed record, so the store's signing step on that id meets
/// exactly its already-signed error case and changes nothing.
pub proof fn lemma_signing_is_final(
    records: Seq<(u32, OracleEventDataView)>,
    i: int,
    d: OracleEventDataView,
    sigs: Seq<(Seq<char>, Seq<u8>)>,
)
    requires
        unique_event_ids(records),
        0 <= i < records.len(),
        records[i].1 == signed_record(d, sigs),
        sigs.len() > 0,
    ensures
        lookup(records, d.event_id) is Some,
        lookup(records, d.event_id).unwrap().signatures.len() > 0,
{
    assert(records[i].1.event_id == d.event_id);
    lemma_pos_unique(records, i, d.event_id);
}

} // verus!
