//! Record model of the oracle's commitments: the announcement, the
//! attestation, and the read-only projection that a store hands back.
//!
//! Nonce points, keys and signatures are carried as plain byte strings:
//! the store never interprets them, it only keeps and returns them.

use vstd::prelude::*;

verus! {

/// Clones a byte string.
pub fn clone_bytes(v: &Vec<u8>) -> (r: Vec<u8>)
    ensures
        r@ == v@,
{
    let r = v.clone();
    proof {
        assert(r@ =~= v@);
    }
    r
}

/// Clones a list of byte strings.
pub fn clone_byte_list(v: &Vec<Vec<u8>>) -> (r: Vec<Vec<u8>>)
    ensures
        r.deep_view() == v.deep_view(),
{
    let r = v.clone();
    proof {
        broadcast use vstd::std_specs::vec::vec_clone_deep_view_proof;

        assert forall|i: int| 0 <= i < v.deep_view().len() implies r.deep_view()[i]
            == v.deep_view()[i] by {
            assert(cloned::<Vec<u8>>(v[i], r[i]));
            assert(r@[i]@ =~= v@[i]@);
        }
        assert(r.deep_view() =~= v.deep_view());
    }
    r
}

/// Clones an optional string.
pub fn clone_opt_string(v: &Option<String>) -> (r: Option<String>)
    ensures
        r.deep_view() == v.deep_view(),
{
    match v {
        Some(s) => Some(s.clone()),
        None => None,
    }
}

/// The event half of an announcement: the identifier the caller supplied,
/// the committed nonce points, the maturity time, and the serialized
/// event descriptor with its enum/numeric flag.
#[derive(Debug)]
pub struct OracleEvent {
    pub oracle_nonces: Vec<Vec<u8>>,
    pub event_maturity_epoch: u32,
    pub event_descriptor: Vec<u8>,
    pub is_enum: bool,
    pub event_id: String,
}

/// Mathematical value of an [`OracleEvent`].
pub struct OracleEventView {
    pub oracle_nonces: Seq<Seq<u8>>,
    pub event_maturity_epoch: u32,
    pub event_descriptor: Seq<u8>,
    pub is_enum: bool,
    pub event_id: Seq<char>,
}

impl View for OracleEvent {
    type V = OracleEventView;

    open spec fn view(&self) -> OracleEventView {
        OracleEventView {
            oracle_nonces: self.oracle_nonces.deep_view(),
            event_maturity_epoch: self.event_maturity_epoch,
            event_descriptor: self.event_descriptor@,
            is_enum: self.is_enum,
            event_id: self.event_id@,
        }
    }
}

impl Clone for OracleEvent {
    fn clone(&self) -> (r: Self)
        ensures
            r@ == self@,
    {
        OracleEvent {
            oracle_nonces: clone_byte_list(&self.oracle_nonces),
            event_maturity_epoch: self.event_maturity_epoch,
            event_descriptor: clone_bytes(&self.event_descriptor),
            is_enum: self.is_enum,
            event_id: self.event_id.clone(),
        }
    }
}

/// The oracle's public commitment to a future event: the signature over the
/// event, the oracle's public key, and the event itself.
#[derive(Debug)]
pub struct OracleAnnouncement {
    pub announcement_signature: Vec<u8>,
    pub oracle_public_key: Vec<u8>,
    pub oracle_event: OracleEvent,
}

/// Mathematical value of an [`OracleAnnouncement`].
pub struct OracleAnnouncementView {
    pub announcement_signature: Seq<u8>,
    pub oracle_public_key: Seq<u8>,
    pub oracle_event: OracleEventView,
}

impl View for OracleAnnouncement {
    type V = OracleAnnouncementView;

    open spec fn view(&self) -> OracleAnnouncementView {
        OracleAnnouncementView {
            announcement_signature: self.announcement_signature@,
            oracle_public_key: self.oracle_public_key@,
            oracle_event: self.oracle_event@,
        }
    }
}

impl Clone for OracleAnnouncement {
    fn clone(&self) -> (r: Self)
        ensures
            r@ == self@,
    {
        OracleAnnouncement {
            announcement_signature: clone_bytes(&self.announcement_signature),
            oracle_public_key: clone_bytes(&self.oracle_public_key),
            oracle_event: self.oracle_event.clone(),
        }
    }
}

/// Clones a list of (outcome, signature) pairs.
pub fn clone_signature_list(v: &Vec<(String, Vec<u8>)>) -> (r: Vec<(String, Vec<u8>)>)
    ensures
        r.deep_view() == v.deep_view(),
{
    let mut r: Vec<(String, Vec<u8>)> = Vec::new();
    let mut i: usize = 0;
    while i < v.len()
        invariant
            i <= v.len(),
            r.deep_view() =~~= v.deep_view().take(i as int),
        decreases v.len() - i,
    {
        let pair = (v[i].0.clone(), clone_bytes(&v[i].1));
        r.push(pair);
        proof {
            assert(r.deep_view() =~~= v.deep_view().take(i + 1 as int));
        }
        i = i + 1;
    }
    proof {
        assert(v.deep_view().take(v@.len() as int) =~~= v.deep_view());
    }
    r
}

/// Read-only projection of one stored event: the announcement as saved, the
/// allocated nonce indexes in ascending order, the (outcome, signature)
/// pairs of the signed slots aligned with those indexes, and the
/// identifiers under which the announcement and the attestation were
/// published, once the publication layer has recorded them.
#[derive(Debug)]
pub struct OracleEventData {
    pub event_id: String,
    pub announcement: OracleAnnouncement,
    pub indexes: Vec<u32>,
    pub signatures: Vec<(String, Vec<u8>)>,
    pub announcement_event_id: Option<String>,
    pub attestation_event_id: Option<String>,
}

/// Mathematical value of an [`OracleEventData`].
pub struct OracleEventDataView {
    pub event_id: Seq<char>,
    pub announcement: OracleAnnouncementView,
    pub indexes: Seq<u32>,
    pub signatures: Seq<(Seq<char>, Seq<u8>)>,
    pub announcement_event_id: Option<Seq<char>>,
    pub attestation_event_id: Option<Seq<char>>,
}

impl View for OracleEventData {
    type V = OracleEventDataView;

    open spec fn view(&self) -> OracleEventDataView {
        OracleEventDataView {
            event_id: self.event_id@,
            announcement: self.announcement@,
            indexes: self.indexes@,
            signatures: self.signatures.deep_view(),
            announcement_event_id: self.announcement_event_id.deep_view(),
            attestation_event_id: self.attestation_event_id.deep_view(),
        }
    }
}

impl DeepView for OracleEventData {
    type V = OracleEventDataView;

    open spec fn deep_view(&self) -> OracleEventDataView {
        self.view()
    }
}

impl Clone for OracleEventData {
    fn clone(&self) -> (r: Self)
        ensures
            r@ == self@,
    {
        let r = OracleEventData {
            event_id: self.event_id.clone(),
            announcement: self.announcement.clone(),
            indexes: self.indexes.clone(),
            signatures: clone_signature_list(&self.signatures),
            announcement_event_id: clone_opt_string(&self.announcement_event_id),
            attestation_event_id: clone_opt_string(&self.attestation_event_id),
        };
        proof {
            assert(r.indexes@ =~= self.indexes@);
        }
        r
    }
}

/// The oracle's attestation to a realized outcome: one signature per nonce
/// slot, each beside the outcome it signs.
#[derive(Debug)]
pub struct OracleAttestation {
    pub event_id: String,
    pub oracle_public_key: Vec<u8>,
    pub signatures: Vec<Vec<u8>>,
    pub outcomes: Vec<String>,
}

/// Mathematical value of an [`OracleAttestation`].
pub struct OracleAttestationView {
    pub event_id: Seq<char>,
    pub oracle_public_key: Seq<u8>,
    pub signatures: Seq<Seq<u8>>,
    pub outcomes: Seq<Seq<char>>,
}

impl View for OracleAttestation {
    type V = OracleAttestationView;

    open spec fn view(&self) -> OracleAttestationView {
        OracleAttestationView {
            event_id: self.event_id@,
            oracle_public_key: self.oracle_public_key@,
            signatures: self.signatures.deep_view(),
            outcomes: self.outcomes.deep_view(),
        }
    }
}

/// Assembles the attestation carried by a projection: `None` while the
/// event is unsigned, otherwise the stored (outcome, signature) pairs
/// unzipped, under the announcement's event id and the oracle's key.
pub fn assemble_attestation(e: &OracleEventData) -> (r: Option<OracleAttestation>)
    ensures
        match r {
            None => e@.signatures.len() == 0,
            Some(a) => {
                &&& e@.signatures.len() > 0
                &&& a@.event_id == e@.announcement.oracle_event.event_id
                &&& a@.oracle_public_key == e@.announcement.oracle_public_key
                &&& a@.outcomes == e@.signatures.map_values(|p: (Seq<char>, Seq<u8>)| p.0)
                &&& a@.signatures == e@.signatures.map_values(|p: (Seq<char>, Seq<u8>)| p.1)
            },
        },
{
    if e.signatures.len() == 0 {
        return None;
    }
    let mut outcomes: Vec<String> = Vec::new();
    let mut signatures: Vec<Vec<u8>> = Vec::new();
    let mut i: usize = 0;
    while i < e.signatures.len()
        invariant
            i <= e.signatures.len(),
            outcomes@.len() == i,
            signatures@.len() == i,
            forall|j: int| 0 <= j < i ==> #[trigger] outcomes@[j]@ == e.signatures@[j].0@,
            forall|j: int| 0 <= j < i ==> #[trigger] signatures@[j]@ == e.signatures@[j].1@,
        decreases e.signatures.len() - i,
    {
        outcomes.push(e.signatures[i].0.clone());
        signatures.push(clone_bytes(&e.signatures[i].1));
        i = i + 1;
    }
    let r = OracleAttestation {
        event_id: e.announcement.oracle_event.event_id.clone(),
        oracle_public_key: clone_bytes(&e.announcement.oracle_public_key),
        signatures,
        outcomes,
    };
    proof {
        assert forall|j: int| 0 <= j < e.signatures@.len() implies #[trigger] r@.outcomes[j]
            == e@.signatures.map_values(|p: (Seq<char>, Seq<u8>)| p.0)[j]
            && #[trigger] r@.signatures[j]
            == e@.signatures.map_values(|p: (Seq<char>, Seq<u8>)| p.1)[j] by {
            assert(r@.outcomes[j] == r.outcomes@[j]@);
            assert(r@.signatures[j] == r.signatures@[j]@);
            assert(e@.signatures[j].0 == e.signatures@[j].0@);
            assert(e@.signatures[j].1 =~= e.signatures@[j].1@);
        }
        assert(r@.outcomes =~~= e@.signatures.map_values(|p: (Seq<char>, Seq<u8>)| p.0));
        assert(r@.signatures =~~= e@.signatures.map_values(|p: (Seq<char>, Seq<u8>)| p.1));
    }
    Some(r)
}

} // verus!
