//! Decision kernel of the embedded, single-writer backend: a key-value
//! store holds whole projections under generated numeric keys and the
//! nonce counter under a key of its own. Each step here takes what one
//! transaction read and returns what it must write; the surrounding code
//! opens the transaction, moves the blobs, and commits before returning.
//! Single-writer use is a precondition of the medium, not enforced here:
//! the counter's read-modify-write spans two of its transactions.

use vstd::prelude::*;

use crate::allocator::contiguous_from;
use crate::error::Error;
use crate::memory::{is_announced_record, signed_record};
use crate::sorting::sort_indexes;
use crate::types::{clone_signature_list, OracleAnnouncement, OracleEventData};

verus! {

/// The nonce cursor a reopened store resumes from: the persisted counter
/// record, or zero on first use. Together with persisting the advanced
/// counter after every allocation, this keeps issued indexes unique
/// across restarts.
pub fn recover_nonce_index(stored: Option<u32>) -> (r: u32)
    ensures
        r == match stored {
            Some(c) => c,
            None => 0u32,
        },
{
    match stored {
        Some(c) => c,
        None => 0,
    }
}

/// The record an announcement save writes: the announcement as given,
/// the indexes in ascending order, no signatures and no publication
/// identifiers yet.
pub fn announcement_record(announcement: OracleAnnouncement, indexes: Vec<u32>) -> (r:
    OracleEventData)
    requires
        indexes@.len() == announcement@.oracle_event.oracle_nonces.len(),
    ensures
        is_announced_record(r@, announcement@, indexes@),
{
    let event_id = announcement.oracle_event.event_id.clone();
    let r = OracleEventData {
        event_id,
        announcement,
        indexes: sort_indexes(indexes),
        signatures: Vec::new(),
        announcement_event_id: None,
        attestation_event_id: None,
    };
    proof {
        assert(r@.signatures =~= Seq::<(Seq<char>, Seq<u8>)>::empty());
    }
    r
}

/// The signing step over the record a transaction loaded: `NotFound` when
/// nothing was stored under the id, `InvalidOutcome` when the pair count
/// differs from the slot count, `EventAlreadySigned` when signatures are
/// already stored — each leaving nothing to write — and otherwise the
/// record to write back, the pairs stored in slot order.
pub fn save_signatures_step(loaded: Option<OracleEventData>, sigs: Vec<(String, Vec<u8>)>) -> (r:
    Result<OracleEventData, Error>)
    ensures
        loaded is None ==> r == Err::<OracleEventData, Error>(Error::NotFound),
        loaded is Some && sigs@.len() != loaded.unwrap()@.indexes.len() ==> r == Err::<
            OracleEventData,
            Error,
        >(Error::InvalidOutcome),
        loaded is Some && sigs@.len() == loaded.unwrap()@.indexes.len()
            && loaded.unwrap()@.signatures.len() > 0 ==> r == Err::<OracleEventData, Error>(
            Error::EventAlreadySigned,
        ),
        loaded is Some && sigs@.len() == loaded.unwrap()@.indexes.len()
            && loaded.unwrap()@.signatures.len() == 0 ==> r is Ok && r.unwrap()@
            == signed_record(loaded.unwrap()@, sigs.deep_view()),
{
    let mut record = match loaded {
        Some(record) => record,
        None => {
            return Err(Error::NotFound);
        },
    };
    if sigs.len() != record.indexes.len() {
        return Err(Error::InvalidOutcome);
    }
    if record.signatures.len() > 0 {
        return Err(Error::EventAlreadySigned);
    }
    record.signatures = clone_signature_list(&sigs);
    Ok(record)
}

/// Records the identifier under which the announcement was published, on
/// the record a transaction loaded; a missing record surfaces as a
/// storage failure, a failed read of the blob.
pub fn add_announcement_event_id_step(loaded: Option<OracleEventData>, nostr_event_id: String) -> (r:
    Result<OracleEventData, Error>)
    ensures
        loaded is None ==> r == Err::<OracleEventData, Error>(Error::StorageFailure),
        loaded is Some ==> r is Ok && r.unwrap()@ == (crate::types::OracleEventDataView {
            announcement_event_id: Some(nostr_event_id@),
            ..loaded.unwrap()@
        }),
{
    let mut record = match loaded {
        Some(record) => record,
        None => {
            return Err(Error::StorageFailure);
        },
    };
    record.announcement_event_id = Some(nostr_event_id);
    Ok(record)
}

/// Records the identifier under which the attestation was published;
/// otherwise as [`add_announcement_event_id_step`].
pub fn add_attestation_event_id_step(loaded: Option<OracleEventData>, nostr_event_id: String) -> (r:
    Result<OracleEventData, Error>)
    ensures
        loaded is None ==> r == Err::<OracleEventData, Error>(Error::StorageFailure),
        loaded is Some ==> r is Ok && r.unwrap()@ == (crate::types::OracleEventDataView {
            attestation_event_id: Some(nostr_event_id@),
            ..loaded.unwrap()@
        }),
{
    let mut record = match loaded {
        Some(record) => record,
        None => {
            return Err(Error::StorageFailure);
        },
    };
    record.attestation_event_id = Some(nostr_event_id);
    Ok(record)
}

/// Law: a store reopened after a crash or restart never reissues an
/// index that an earlier instance both issued and persisted the advance
/// for. The persisted counter stands one past the last issued block, and
/// the fresh instance's blocks all start at or beyond it.
pub proof fn lemma_restart_never_reissues(
    issued: Seq<u32>,
    start: u32,
    n: nat,
    persisted: u32,
    fresh: Seq<u32>,
    start2: u32,
    n2: nat,
)
    requires
        contiguous_from(issued, start, n),
        persisted == start + n,
        persisted <= start2,
        contiguous_from(fresh, start2, n2),
    ensures
        forall|k: int, l: int| 0 <= k < n && 0 <= l < n2 ==> issued[k] != fresh[l],
{
    crate::allocator::lemma_allocations_disjoint(issued, start, n, fresh, start2, n2);
}

} // verus!
