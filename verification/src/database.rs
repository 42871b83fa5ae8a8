//! Relational backend model: one event table and one nonce-slot table,
//! joined on the external event id. Every multi-row operation is
//! transactional in effect: it either completes whole or leaves both
//! tables untouched.

use vstd::prelude::*;

use crate::allocator::{allocate_indexes, contiguous_from};
use crate::error::Error;
use crate::types::{clone_bytes, clone_opt_string, OracleAnnouncement, OracleAnnouncementView,
    OracleEvent, OracleEventData, OracleEventDataView};

verus! {

/// One row of the event table, keyed by the caller-supplied external
/// event id: the announcement's signature and event half, a display name,
/// the enum/numeric flag, and the publication identifiers filled in after
/// the fact.
#[derive(Debug)]
pub struct Event {
    pub event_id: String,
    pub announcement_signature: Vec<u8>,
    pub oracle_event: OracleEvent,
    pub name: String,
    pub is_enum: bool,
    pub announcement_event_id: Option<String>,
    pub attestation_event_id: Option<String>,
}

/// Mathematical value of an [`Event`] row.
pub struct EventView {
    pub event_id: Seq<char>,
    pub announcement_signature: Seq<u8>,
    pub oracle_event: crate::types::OracleEventView,
    pub name: Seq<char>,
    pub is_enum: bool,
    pub announcement_event_id: Option<Seq<char>>,
    pub attestation_event_id: Option<Seq<char>>,
}

impl View for Event {
    type V = EventView;

    open spec fn view(&self) -> EventView {
        EventView {
            event_id: self.event_id@,
            announcement_signature: self.announcement_signature@,
            oracle_event: self.oracle_event@,
            name: self.name@,
            is_enum: self.is_enum,
            announcement_event_id: self.announcement_event_id.deep_view(),
            attestation_event_id: self.attestation_event_id.deep_view(),
        }
    }
}

impl DeepView for Event {
    type V = EventView;

    open spec fn deep_view(&self) -> EventView {
        self.view()
    }
}

/// One row of the nonce-slot table: a globally unique allocation index
/// (doubling as the row key), the owning event id, the committed nonce
/// point, and — once the event is signed — the outcome and signature.
#[derive(Debug)]
pub struct EventNonce {
    pub id: u32,
    pub event_id: String,
    pub index: u32,
    pub nonce: Vec<u8>,
    pub outcome: Option<String>,
    pub signature: Option<Vec<u8>>,
}

/// Mathematical value of an [`EventNonce`] row.
pub struct EventNonceView {
    pub id: u32,
    pub event_id: Seq<char>,
    pub index: u32,
    pub nonce: Seq<u8>,
    pub outcome: Option<Seq<char>>,
    pub signature: Option<Seq<u8>>,
}

impl View for EventNonce {
    type V = EventNonceView;

    open spec fn view(&self) -> EventNonceView {
        EventNonceView {
            id: self.id,
            event_id: self.event_id@,
            index: self.index,
            nonce: self.nonce@,
            outcome: self.outcome.deep_view(),
            signature: self.signature.deep_view(),
        }
    }
}

impl DeepView for EventNonce {
    type V = EventNonceView;

    open spec fn deep_view(&self) -> EventNonceView {
        self.view()
    }
}

/// Some event row carries the id.
pub open spec fn has_event_row(events: Seq<EventView>, id: Seq<char>) -> bool {
    exists|i: int| 0 <= i < events.len() && #[trigger] events[i].event_id == id
}

/// Position of the event row carrying `id`; meaningful under
/// [`has_event_row`], unambiguous once ids are unique.
pub open spec fn event_row_pos(events: Seq<EventView>, id: Seq<char>) -> int {
    choose|i: int| 0 <= i < events.len() && #[trigger] events[i].event_id == id
}

/// Position of `v` in the index list `s`; meaningful when `v` occurs,
/// unambiguous once the list repeats no value.
pub open spec fn index_position(s: Seq<u32>, v: u32) -> int {
    choose|j: int| 0 <= j < s.len() && s[j] == v
}

/// The slot rows owned by `id`, in table order.
pub open spec fn slots_of(nonces: Seq<EventNonceView>, id: Seq<char>) -> Seq<EventNonceView>
    decreases nonces.len(),
{
    if nonces.len() == 0 {
        Seq::empty()
    } else if nonces.last().event_id == id {
        slots_of(nonces.drop_last(), id).push(nonces.last())
    } else {
        slots_of(nonces.drop_last(), id)
    }
}

/// Appending one row extends exactly the slots of its own event.
pub proof fn lemma_slots_push(nonces: Seq<EventNonceView>, x: EventNonceView, id: Seq<char>)
    ensures
        x.event_id == id ==> slots_of(nonces.push(x), id) == slots_of(nonces, id).push(x),
        x.event_id != id ==> slots_of(nonces.push(x), id) == slots_of(nonces, id),
{
    assert(nonces.push(x).drop_last() =~= nonces);
    assert(nonces.push(x).last() == x);
}

/// A table without rows of `id` has no slots of `id`.
pub proof fn lemma_slots_empty(nonces: Seq<EventNonceView>, id: Seq<char>)
    requires
        forall|i: int| 0 <= i < nonces.len() ==> nonces[i].event_id != id,
    ensures
        slots_of(nonces, id) =~= Seq::<EventNonceView>::empty(),
    decreases nonces.len(),
{
    if nonces.len() > 0 {
        lemma_slots_empty(nonces.drop_last(), id);
    }
}

/// Every slot of `id` carries `id`, and the slots are as many as the rows
/// that carry `id` allow: a prefix never holds more slots than the whole.
pub proof fn lemma_slots_membership(nonces: Seq<EventNonceView>, id: Seq<char>)
    ensures
        forall|k: int|
            0 <= k < slots_of(nonces, id).len() ==> (#[trigger] slots_of(nonces, id)[k]).event_id
                == id,
        slots_of(nonces, id).len() <= nonces.len(),
    decreases nonces.len(),
{
    if nonces.len() > 0 {
        lemma_slots_membership(nonces.drop_last(), id);
    }
}

/// Replacing the slot row at table position `p` by a row of the same
/// event replaces the one slot at the row's rank — the number of that
/// event's slots before `p` — and leaves every other event's slots alone.
pub proof fn lemma_slots_update(
    nonces: Seq<EventNonceView>,
    p: int,
    x: EventNonceView,
    id: Seq<char>,
)
    requires
        0 <= p < nonces.len(),
        nonces[p].event_id == id,
        x.event_id == id,
    ensures
        slots_of(nonces.take(p), id).len() < slots_of(nonces, id).len(),
        slots_of(nonces.update(p, x), id) =~= slots_of(nonces, id).update(
            slots_of(nonces.take(p), id).len() as int,
            x,
        ),
        forall|oid: Seq<char>|
            oid != id ==> #[trigger] slots_of(nonces.update(p, x), oid) =~= slots_of(nonces, oid),
    decreases nonces.len(),
{
    let n = nonces.len() as int;
    if p == n - 1 {
        assert(nonces.take(p) =~= nonces.drop_last());
        assert(nonces.update(p, x).drop_last() =~= nonces.drop_last());
        assert(nonces.update(p, x).last() == x);
        assert forall|oid: Seq<char>| oid != id implies #[trigger] slots_of(
            nonces.update(p, x),
            oid,
        ) =~= slots_of(nonces, oid) by {}
    } else {
        lemma_slots_update(nonces.drop_last(), p, x, id);
        assert(nonces.update(p, x).drop_last() =~= nonces.drop_last().update(p, x));
        assert(nonces.update(p, x).last() == nonces.last());
        assert(nonces.drop_last().take(p) =~= nonces.take(p));
        assert forall|oid: Seq<char>| oid != id implies #[trigger] slots_of(
            nonces.update(p, x),
            oid,
        ) =~= slots_of(nonces, oid) by {
            assert(slots_of(nonces.drop_last().update(p, x), oid) =~= slots_of(
                nonces.drop_last(),
                oid,
            ));
        }
    }
}

} // verus!

use vstd::multiset::Multiset;

verus! {

/// The (outcome, signature) pairs of the signed slots, in slot order.
pub open spec fn signed_pairs(slots: Seq<EventNonceView>) -> Seq<(Seq<char>, Seq<u8>)>
    decreases slots.len(),
{
    if slots.len() == 0 {
        Seq::empty()
    } else if slots.last().outcome is Some && slots.last().signature is Some {
        signed_pairs(slots.drop_last()).push(
            (slots.last().outcome.unwrap(), slots.last().signature.unwrap()),
        )
    } else {
        signed_pairs(slots.drop_last())
    }
}

/// Appending one slot extends the signed pairs exactly when it is signed.
pub proof fn lemma_signed_pairs_push(slots: Seq<EventNonceView>, x: EventNonceView)
    ensures
        x.outcome is Some && x.signature is Some ==> signed_pairs(slots.push(x)) == signed_pairs(
            slots,
        ).push((x.outcome.unwrap(), x.signature.unwrap())),
        !(x.outcome is Some && x.signature is Some) ==> signed_pairs(slots.push(x))
            == signed_pairs(slots),
{
    assert(slots.push(x).drop_last() =~= slots);
    assert(slots.push(x).last() == x);
}

/// The slots after signing: each gets its pair, in slot order; nothing
/// else about a slot changes.
pub open spec fn sign_slots(
    slots: Seq<EventNonceView>,
    pairs: Seq<(Seq<char>, Seq<u8>)>,
) -> Seq<EventNonceView> {
    Seq::new(
        slots.len(),
        |k: int|
            EventNonceView {
                outcome: Some(pairs[k].0),
                signature: Some(pairs[k].1),
                ..slots[k]
            },
    )
}

/// Signing writes back exactly the pairs that were handed in: reading the
/// signed pairs of freshly signed slots returns the input list.
pub proof fn lemma_signed_pairs_of_sign_slots(
    slots: Seq<EventNonceView>,
    pairs: Seq<(Seq<char>, Seq<u8>)>,
)
    requires
        pairs.len() == slots.len(),
    ensures
        signed_pairs(sign_slots(slots, pairs)) =~= pairs,
    decreases slots.len(),
{
    if slots.len() > 0 {
        let n = slots.len() as int;
        lemma_signed_pairs_of_sign_slots(slots.drop_last(), pairs.take(n - 1));
        assert(sign_slots(slots, pairs).drop_last() =~= sign_slots(
            slots.drop_last(),
            pairs.take(n - 1),
        ));
        assert(sign_slots(slots, pairs).last().outcome == Some(pairs[n - 1].0));
    }
}

/// Unsigned slots contribute no signed pairs.
pub proof fn lemma_signed_pairs_unsigned(slots: Seq<EventNonceView>)
    requires
        forall|k: int| 0 <= k < slots.len() ==> (#[trigger] slots[k].signature) is None,
    ensures
        signed_pairs(slots) =~= Seq::<(Seq<char>, Seq<u8>)>::empty(),
    decreases slots.len(),
{
    if slots.len() > 0 {
        lemma_signed_pairs_unsigned(slots.drop_last());
    }
}

/// Mathematical state of an [`EventDatabase`]: the oracle's key, the
/// nonce cursor, and the two tables in row order.
pub struct EventDatabaseView {
    pub oracle_public_key: Seq<u8>,
    pub current_index: u32,
    pub events: Seq<EventView>,
    pub nonces: Seq<EventNonceView>,
}

/// Relational event store model: an event table and a nonce-slot table,
/// the nonce cursor, and the oracle public key stamped on every
/// projection read from it.
pub struct EventDatabase {
    oracle_public_key: Vec<u8>,
    current_index: u32,
    events: Vec<Event>,
    nonces: Vec<EventNonce>,
}

impl View for EventDatabase {
    type V = EventDatabaseView;

    closed spec fn view(&self) -> EventDatabaseView {
        EventDatabaseView {
            oracle_public_key: self.oracle_public_key@,
            current_index: self.current_index,
            events: self.events.deep_view(),
            nonces: self.nonces.deep_view(),
        }
    }
}

/// The table constraints the relational medium enforces, made explicit:
/// unique event ids, unique slot keys equal to their allocation index,
/// referential integrity of the owning event id, outcome and signature
/// written together, and each event's slots in ascending index order.
pub open spec fn tables_wf(events: Seq<EventView>, nonces: Seq<EventNonceView>) -> bool {
    &&& forall|i: int, j: int|
        0 <= i < j < events.len() ==> events[i].event_id != events[j].event_id
    &&& forall|i: int, j: int| 0 <= i < j < nonces.len() ==> nonces[i].id != nonces[j].id
    &&& forall|i: int| 0 <= i < nonces.len() ==> (#[trigger] nonces[i]).id == nonces[i].index
    &&& forall|i: int|
        0 <= i < nonces.len() ==> has_event_row(events, (#[trigger] nonces[i]).event_id)
    &&& forall|i: int|
        0 <= i < nonces.len() ==> ((#[trigger] nonces[i]).outcome is Some <==> nonces[i].signature
            is Some)
    &&& forall|i: int, j: int|
        0 <= i < j < nonces.len() && (#[trigger] nonces[i]).event_id == (
        #[trigger] nonces[j]).event_id ==> nonces[i].index < nonces[j].index
}

/// The projection a read of `id` reconstructs: the stored announcement
/// joined with the event's slots in table order, which the table
/// constraints keep ascending by index.
pub open spec fn projection_of(db: EventDatabaseView, id: Seq<char>) -> Option<
    OracleEventDataView,
> {
    if has_event_row(db.events, id) {
        let e = db.events[event_row_pos(db.events, id)];
        let slots = slots_of(db.nonces, id);
        Some(
            OracleEventDataView {
                event_id: id,
                announcement: OracleAnnouncementView {
                    announcement_signature: e.announcement_signature,
                    oracle_public_key: db.oracle_public_key,
                    oracle_event: e.oracle_event,
                },
                indexes: slots.map_values(|n: EventNonceView| n.index),
                signatures: signed_pairs(slots),
                announcement_event_id: e.announcement_event_id,
                attestation_event_id: e.attestation_event_id,
            },
        )
    } else {
        None
    }
}

/// Finds the position of the event row carrying `event_id`.
fn find_event_row(events: &Vec<Event>, event_id: &String) -> (r: Option<usize>)
    ensures
        match r {
            Some(i) => i < events@.len() && events@[i as int].event_id@ == event_id@,
            None => forall|j: int|
                0 <= j < events@.len() ==> events@[j].event_id@ != event_id@,
        },
{
    let mut i: usize = 0;
    while i < events.len()
        invariant
            i <= events@.len(),
            forall|j: int| 0 <= j < i ==> events@[j].event_id@ != event_id@,
        decreases events@.len() - i,
    {
        if events[i].event_id == *event_id {
            return Some(i);
        }
        i = i + 1;
    }
    None
}

/// A match at position `i` of the concrete event table is a match in the
/// model, at the same position.
proof fn lemma_row_found(v: Vec<Event>, i: int, id: Seq<char>)
    requires
        0 <= i < v@.len(),
        v@[i].event_id@ == id,
    ensures
        has_event_row(v.deep_view(), id),
        v.deep_view()[i] == v@[i]@,
{
    assert(v.deep_view()[i] == v@[i].deep_view());
    assert(v.deep_view()[i].event_id == id);
}

/// No match in the concrete event table means none in the model.
proof fn lemma_row_not_found(v: Vec<Event>, id: Seq<char>)
    requires
        forall|j: int| 0 <= j < v@.len() ==> v@[j].event_id@ != id,
    ensures
        !has_event_row(v.deep_view(), id),
{
    assert forall|i: int| 0 <= i < v.deep_view().len() implies v.deep_view()[i].event_id
        != id by {
        assert(v.deep_view()[i] == v@[i].deep_view());
    }
}

/// With unique event ids, a row carrying `id` at position `i` is the row
/// that [`event_row_pos`] picks.
proof fn lemma_row_pos_unique(events: Seq<EventView>, i: int, id: Seq<char>)
    requires
        forall|a: int, b: int| 0 <= a < b < events.len() ==> events[a].event_id != events[b].event_id,
        0 <= i < events.len(),
        events[i].event_id == id,
    ensures
        has_event_row(events, id),
        event_row_pos(events, id) == i,
{
    assert(has_event_row(events, id));
    let p = event_row_pos(events, id);
    if p < i {
        assert(events[p].event_id != events[i].event_id);
    } else if p > i {
        assert(events[i].event_id != events[p].event_id);
    }
}

/// Whether some slot row already uses the key `id`.
fn contains_nonce_id(nonces: &Vec<EventNonce>, id: u32) -> (r: bool)
    ensures
        r == exists|j: int| 0 <= j < nonces@.len() && (#[trigger] nonces@[j].id) == id,
{
    let mut i: usize = 0;
    while i < nonces.len()
        invariant
            i <= nonces@.len(),
            forall|j: int| 0 <= j < i ==> (#[trigger] nonces@[j].id) != id,
        decreases nonces@.len() - i,
    {
        if nonces[i].id == id {
            return true;
        }
        i = i + 1;
    }
    false
}

/// Whether the requested indexes are pairwise distinct.
fn all_distinct(v: &Vec<u32>) -> (r: bool)
    ensures
        r == forall|i: int, j: int| 0 <= i < j < v@.len() ==> v@[i] != v@[j],
{
    let mut i: usize = 0;
    while i < v.len()
        invariant
            i <= v@.len(),
            forall|a: int, b: int| 0 <= a < i && a < b < v@.len() ==> v@[a] != v@[b],
        decreases v@.len() - i,
    {
        let mut j: usize = i + 1;
        while j < v.len()
            invariant
                i < j <= v@.len() || (i >= v@.len() && j >= v@.len()),
                i < v@.len(),
                forall|b: int| i < b < j ==> v@[i as int] != v@[b],
            decreases v@.len() - j,
        {
            if v[i] == v[j] {
                return false;
            }
            j = j + 1;
        }
        i = i + 1;
    }
    true
}

/// Sorts (index, source position) pairs into ascending index order. The
/// result is a rearrangement of the input — same multiset of pairs, and
/// so the same multiset of indexes.
fn sort_index_pairs(v: Vec<(u32, usize)>) -> (r: Vec<(u32, usize)>)
    ensures
        forall|i: int, j: int| 0 <= i < j < r@.len() ==> r@[i].0 <= r@[j].0,
        r@.to_multiset() == v@.to_multiset(),
        r@.map_values(|p: (u32, usize)| p.0).to_multiset() == v@.map_values(
            |p: (u32, usize)| p.0,
        ).to_multiset(),
        r@.len() == v@.len(),
{
    let ghost orig = v@;
    let ghost f = |p: (u32, usize)| p.0;
    let mut rest = v;
    let mut out: Vec<(u32, usize)> = Vec::new();
    proof {
        broadcast use vstd::multiset::group_multiset_axioms;

        out@.to_multiset_ensures();
        out@.map_values(f).to_multiset_ensures();
        assert(out@.to_multiset() =~= Multiset::empty());
        assert(out@.map_values(f) =~= Seq::<u32>::empty());
        assert(out@.map_values(f).to_multiset() =~= Multiset::empty());
        assert(out@.to_multiset().add(rest@.to_multiset()) =~= rest@.to_multiset());
        assert(out@.map_values(f).to_multiset().add(rest@.map_values(f).to_multiset())
            =~= rest@.map_values(f).to_multiset());
    }
    while rest.len() > 0
        invariant
            f == (|p: (u32, usize)| p.0),
            forall|i: int, j: int| 0 <= i < j < out@.len() ==> out@[i].0 <= out@[j].0,
            forall|i: int, j: int|
                0 <= i < out@.len() && 0 <= j < rest@.len() ==> out@[i].0 <= rest@[j].0,
            out@.to_multiset().add(rest@.to_multiset()) =~= orig.to_multiset(),
            out@.map_values(f).to_multiset().add(rest@.map_values(f).to_multiset())
                =~= orig.map_values(f).to_multiset(),
            out@.len() + rest@.len() == orig.len(),
        decreases rest@.len(),
    {
        let mut m: usize = 0;
        let mut t: usize = 1;
        while t < rest.len()
            invariant
                rest@.len() > 0,
                m < t,
                t <= rest@.len(),
                forall|j: int| 0 <= j < t ==> rest@[m as int].0 <= rest@[j].0,
            decreases rest@.len() - t,
        {
            if rest[t].0 < rest[m].0 {
                m = t;
            }
            t = t + 1;
        }
        let ghost rest_before = rest@;
        let ghost out_before = out@;
        let x = rest.remove(m);
        out.push(x);
        proof {
            broadcast use vstd::multiset::group_multiset_axioms;

            vstd::seq_lib::to_multiset_build(out_before, x);
            vstd::seq_lib::to_multiset_remove(rest_before, m as int);
            assert(out@ == out_before.push(x));
            assert(rest@ == rest_before.remove(m as int));
            rest_before.to_multiset_ensures();
            assert(rest_before.contains(x));
            assert(rest_before.to_multiset().count(x) > 0);
            assert(out@.to_multiset().add(rest@.to_multiset()) =~= orig.to_multiset());
            vstd::seq_lib::to_multiset_build(out_before.map_values(f), x.0);
            vstd::seq_lib::to_multiset_remove(rest_before.map_values(f), m as int);
            assert(out@.map_values(f) =~= out_before.map_values(f).push(x.0));
            assert(rest@.map_values(f) =~= rest_before.map_values(f).remove(m as int));
            rest_before.map_values(f).to_multiset_ensures();
            assert(rest_before.map_values(f)[m as int] == x.0);
            assert(rest_before.map_values(f).contains(x.0));
            assert(out@.map_values(f).to_multiset().add(rest@.map_values(f).to_multiset())
                =~= orig.map_values(f).to_multiset());
            assert forall|j: int| 0 <= j < rest@.len() implies x.0 <= rest@[j].0 by {
                if j < m {
                    assert(rest@[j] == rest_before[j]);
                } else {
                    assert(rest@[j] == rest_before[j + 1]);
                }
            }
        }
    }
    proof {
        broadcast use vstd::multiset::group_multiset_axioms;

        rest@.to_multiset_ensures();
        assert(rest@.to_multiset() =~= Multiset::empty());
        assert(rest@.map_values(f) =~= Seq::<u32>::empty());
        assert(rest@.map_values(f).to_multiset() =~= Multiset::empty());
        assert(out@.to_multiset() =~= orig.to_multiset());
        assert(out@.map_values(f).to_multiset() =~= orig.map_values(f).to_multiset());
        vstd::seq_lib::to_multiset_len(out@);
        vstd::seq_lib::to_multiset_len(orig);
    }
    out
}

} // verus!

verus! {

impl EventDatabase {
    /// The table constraints hold of the store's state.
    pub open spec fn inv(&self) -> bool {
        tables_wf(self@.events, self@.nonces)
    }

    /// A fresh, empty store for the given oracle key; nonce cursor at zero.
    pub fn new(oracle_public_key: Vec<u8>) -> (r: Self)
        ensures
            r.inv(),
            r@.oracle_public_key == oracle_public_key@,
            r@.current_index == 0,
            r@.events.len() == 0,
            r@.nonces.len() == 0,
    {
        let r = EventDatabase {
            oracle_public_key,
            current_index: 0,
            events: Vec::new(),
            nonces: Vec::new(),
        };
        proof {
            assert(r@.events =~= Seq::<EventView>::empty());
            assert(r@.nonces =~= Seq::<EventNonceView>::empty());
        }
        r
    }

    /// Reopens a store over rows read back from the durable medium,
    /// resuming the nonce cursor one past the highest persisted slot key,
    /// so that no persisted index can ever be issued again. The rows must
    /// satisfy the table constraints, which the medium enforced when they
    /// were written.
    pub fn from_rows(
        oracle_public_key: Vec<u8>,
        events: Vec<Event>,
        nonces: Vec<EventNonce>,
    ) -> (r: Self)
        requires
            tables_wf(events.deep_view(), nonces.deep_view()),
            forall|i: int| 0 <= i < nonces@.len() ==> (#[trigger] nonces@[i].id) < u32::MAX,
        ensures
            r.inv(),
            r@.oracle_public_key == oracle_public_key@,
            r@.events == events.deep_view(),
            r@.nonces == nonces.deep_view(),
            forall|i: int|
                0 <= i < r@.nonces.len() ==> (#[trigger] r@.nonces[i].id) < r@.current_index,
            nonces@.len() == 0 ==> r@.current_index == 0,
    {
        let mut cursor: u32 = 0;
        let mut i: usize = 0;
        while i < nonces.len()
            invariant
                i <= nonces@.len(),
                forall|j: int| 0 <= j < nonces@.len() ==> (#[trigger] nonces@[j].id) < u32::MAX,
                forall|j: int| 0 <= j < i ==> (#[trigger] nonces@[j].id) < cursor,
                i == 0 ==> cursor == 0,
            decreases nonces@.len() - i,
        {
            if nonces[i].id >= cursor {
                cursor = nonces[i].id + 1;
            }
            i = i + 1;
        }
        let r = EventDatabase { oracle_public_key, current_index: cursor, events, nonces };
        proof {
            assert forall|k: int| 0 <= k < r@.nonces.len() implies (#[trigger] r@.nonces[k].id)
                < r@.current_index by {
                assert(r@.nonces[k] == r.nonces@[k].deep_view());
            }
        }
        r
    }

    /// Issues the next `num` nonce indexes: the contiguous block at the
    /// cursor, which moves past it; the tables are untouched.
    /// The request must fit under the cursor's 32-bit ceiling.
    pub fn get_next_nonce_indexes(&mut self, num: usize) -> (r: Result<Vec<u32>, Error>)
        requires
            old(self)@.current_index + num <= u32::MAX,
        ensures
            final(self).inv() == old(self).inv(),
            r is Ok,
            contiguous_from(r.unwrap()@, old(self)@.current_index, num as nat),
            final(self)@.current_index == old(self)@.current_index + num,
            final(self)@.events == old(self)@.events,
            final(self)@.nonces == old(self)@.nonces,
            final(self)@.oracle_public_key == old(self)@.oracle_public_key,
    {
        let (indexes, next) = allocate_indexes(self.current_index, num);
        self.current_index = next;
        Ok(indexes)
    }

    /// Saves an announcement atomically: one event row and one slot row
    /// per (index, nonce point) pair, the slot rows in ascending index
    /// order, none of them signed. Fails with `StorageFailure` — leaving
    /// both tables untouched — when the event id is already present, or
    /// when an index repeats or collides with a slot key already in the
    /// table, which the medium's key constraints would refuse. Returns
    /// the external event id.
    #[verifier::loop_isolation(false)]
    #[verifier::rlimit(100)]
    pub fn save_announcement(
        &mut self,
        announcement: OracleAnnouncement,
        indexes: Vec<u32>,
    ) -> (r: Result<String, Error>)
        requires
            old(self).inv(),
            indexes@.len() == announcement@.oracle_event.oracle_nonces.len(),
        ensures
            final(self).inv(),
            r is Err ==> final(self)@ == old(self)@ && r == Err::<String, Error>(
                Error::StorageFailure,
            ),
            r is Err <==> {
                ||| has_event_row(old(self)@.events, announcement@.oracle_event.event_id)
                ||| !(forall|i: int, j: int|
                    0 <= i < j < indexes@.len() ==> indexes@[i] != indexes@[j])
                ||| exists|i: int, j: int|
                    0 <= i < indexes@.len() && 0 <= j < old(self)@.nonces.len() && (
                    #[trigger] indexes@[i]) == (#[trigger] old(self)@.nonces[j]).id
            },
            r is Ok ==> ({
                let id = announcement@.oracle_event.event_id;
                let n = indexes@.len() as int;
                let row = final(self)@.events.last();
                let block = final(self)@.nonces.skip(old(self)@.nonces.len() as int);
                &&& r.unwrap()@ == id
                &&& final(self)@.events.len() == old(self)@.events.len() + 1
                &&& final(self)@.events.take(old(self)@.events.len() as int) == old(
                    self,
                )@.events
                &&& row.event_id == id
                &&& row.announcement_signature == announcement@.announcement_signature
                &&& row.oracle_event == announcement@.oracle_event
                &&& row.name == id
                &&& row.is_enum == announcement@.oracle_event.is_enum
                &&& row.announcement_event_id is None
                &&& row.attestation_event_id is None
                &&& final(self)@.nonces.len() == old(self)@.nonces.len() + n
                &&& final(self)@.nonces.take(old(self)@.nonces.len() as int) == old(
                    self,
                )@.nonces
                &&& slots_of(final(self)@.nonces, id) == block
                &&& forall|k: int|
                    0 <= k < n ==> {
                        let b = #[trigger] block[k];
                        b.event_id == id && b.outcome is None && b.signature is None && b.id
                            == b.index
                    }
                &&& forall|k: int, l: int| 0 <= k < l < n ==> block[k].index < block[l].index
                &&& block.map_values(|nv: EventNonceView| nv.index).to_multiset()
                    == indexes@.to_multiset()
                &&& forall|k: int|
                    0 <= k < n ==> {
                        let j = index_position(indexes@, (#[trigger] block[k]).index);
                        &&& 0 <= j < n
                        &&& indexes@[j] == block[k].index
                        &&& block[k].nonce == announcement@.oracle_event.oracle_nonces[j]
                    }
                &&& forall|oid: Seq<char>|
                    oid != id ==> #[trigger] slots_of(final(self)@.nonces, oid) == slots_of(
                        old(self)@.nonces,
                        oid,
                    )
                &&& final(self)@.current_index == old(self)@.current_index
                &&& final(self)@.oracle_public_key == old(self)@.oracle_public_key
            }),
    {
        let ghost id = announcement@.oracle_event.event_id;
        if let Some(i) = find_event_row(&self.events, &announcement.oracle_event.event_id) {
            proof {
                lemma_row_found(self.events, i as int, id);
            }
            return Err(Error::StorageFailure);
        }
        proof {
            lemma_row_not_found(self.events, id);
        }
        if !all_distinct(&indexes) {
            return Err(Error::StorageFailure);
        }
        let mut i: usize = 0;
        while i < indexes.len()
            invariant
                *self == *old(self),
                i <= indexes@.len(),
                forall|a: int, j: int|
                    0 <= a < i && 0 <= j < self.nonces@.len() ==> (#[trigger] indexes@[a]) != (
                    #[trigger] self.nonces@[j].id),
            decreases indexes@.len() - i,
        {
            if contains_nonce_id(&self.nonces, indexes[i]) {
                proof {
                    let j = choose|j: int|
                        0 <= j < self.nonces@.len() && (#[trigger] self.nonces@[j].id)
                            == indexes@[i as int];
                    assert(old(self)@.nonces[j] == self.nonces@[j].deep_view());
                    assert((#[trigger] indexes@[i as int]) == (#[trigger] old(
                        self,
                    )@.nonces[j]).id);
                }
                return Err(Error::StorageFailure);
            }
            i = i + 1;
        }
        proof {
            assert forall|a: int, j: int|
                0 <= a < indexes@.len() && 0 <= j < old(self)@.nonces.len() implies (
            #[trigger] indexes@[a]) != (#[trigger] old(self)@.nonces[j]).id by {
                assert(old(self)@.nonces[j] == self.nonces@[j].deep_view());
            }
        }
        let mut pairs: Vec<(u32, usize)> = Vec::new();
        let mut k: usize = 0;
        while k < indexes.len()
            invariant
                *self == *old(self),
                k <= indexes@.len(),
                pairs@.len() == k,
                forall|j: int| 0 <= j < k ==> pairs@[j] == (indexes@[j], j as usize),
            decreases indexes@.len() - k,
        {
            pairs.push((indexes[k], k));
            k = k + 1;
        }
        let sp = sort_index_pairs(pairs);
        proof {
            broadcast use vstd::multiset::group_multiset_axioms;

            assert(pairs@.map_values(|p: (u32, usize)| p.0) =~= indexes@);
            pairs@.to_multiset_ensures();
            sp@.to_multiset_ensures();
            assert forall|a: int| 0 <= a < sp@.len() implies exists|j: int|
                0 <= j < indexes@.len() && (#[trigger] sp@[a]) == (indexes@[j], j as usize) by {
                assert(sp@.contains(sp@[a]));
                assert(sp@.to_multiset().count(sp@[a]) > 0);
                assert(pairs@.to_multiset().count(sp@[a]) > 0);
                assert(pairs@.contains(sp@[a]));
                let j = choose|j: int| 0 <= j < pairs@.len() && pairs@[j] == sp@[a];
                assert(pairs@[j] == (indexes@[j], j as usize));
            }
        }
        let event_id = announcement.oracle_event.event_id.clone();
        let event_row = Event {
            event_id: announcement.oracle_event.event_id.clone(),
            announcement_signature: clone_bytes(&announcement.announcement_signature),
            oracle_event: announcement.oracle_event.clone(),
            name: announcement.oracle_event.event_id.clone(),
            is_enum: announcement.oracle_event.is_enum,
            announcement_event_id: None,
            attestation_event_id: None,
        };
        let ghost old_events = self@.events;
        let ghost old_nonces = self@.nonces;
        let ghost erow = EventView {
            event_id: id,
            announcement_signature: announcement@.announcement_signature,
            oracle_event: announcement@.oracle_event,
            name: id,
            is_enum: announcement@.oracle_event.is_enum,
            announcement_event_id: None,
            attestation_event_id: None,
        };
        self.events.push(event_row);
        proof {
            assert(self@.events =~= old_events.push(erow));
            assert forall|j: int| 0 <= j < old_nonces.len() implies old_nonces[j].event_id
                != id by {
                assert(self.nonces@[j].deep_view() == old_nonces[j]);
            }
            lemma_slots_empty(old_nonces, id);
        }
        let n = indexes.len();
        let ghost perm = Seq::new(
            n as nat,
            |a: int|
                choose|j: int|
                    0 <= j < indexes@.len() && sp@[a] == (indexes@[j], j as usize),
        );
        proof {
            assert forall|a: int| 0 <= a < n implies 0 <= #[trigger] perm[a] < n && sp@[a] == (
                indexes@[perm[a]],
                perm[a] as usize,
            ) by {
                let j0 = choose|j: int|
                    0 <= j < indexes@.len() && (#[trigger] sp@[a]) == (indexes@[j], j as usize);
                assert(0 <= j0 < indexes@.len() && sp@[a] == (indexes@[j0], j0 as usize));
            }
        }
        let mut t: usize = 0;
        while t < n
            invariant
                t <= n,
                n == indexes@.len(),
                n == announcement@.oracle_event.oracle_nonces.len(),
                sp@.len() == n,
                forall|a: int, b: int| 0 <= a < b < n ==> sp@[a].0 <= sp@[b].0,
                forall|a: int|
                    0 <= a < n ==> 0 <= #[trigger] perm[a] < n && sp@[a] == (
                        indexes@[perm[a]],
                        perm[a] as usize,
                    ),
                self@.events == old_events.push(erow),
                self@.current_index == old(self)@.current_index,
                self@.oracle_public_key == old(self)@.oracle_public_key,
                self@.nonces.len() == old_nonces.len() + t,
                self@.nonces.take(old_nonces.len() as int) =~= old_nonces,
                forall|l: int|
                    0 <= l < t ==> {
                        let b = #[trigger] self@.nonces[old_nonces.len() + l];
                        &&& b.event_id == id
                        &&& b.outcome is None
                        &&& b.signature is None
                        &&& b.id == b.index
                        &&& b.index == sp@[l].0
                        &&& b.nonce == announcement@.oracle_event.oracle_nonces[perm[l]]
                    },
                slots_of(self@.nonces, id) =~= self@.nonces.skip(old_nonces.len() as int),
                forall|oid: Seq<char>|
                    oid != id ==> #[trigger] slots_of(self@.nonces, oid) =~= slots_of(
                        old_nonces,
                        oid,
                    ),
            decreases n - t,
        {
            proof {
                assert(sp@[t as int].1 == perm[t as int] as usize);
            }
            let src = sp[t].1;
            let row = EventNonce {
                id: sp[t].0,
                event_id: announcement.oracle_event.event_id.clone(),
                index: sp[t].0,
                nonce: clone_bytes(&announcement.oracle_event.oracle_nonces[src]),
                outcome: None,
                signature: None,
            };
            let ghost pre = self@.nonces;
            self.nonces.push(row);
            proof {
                let rv = row@;
                assert(src as int == perm[t as int]);
                assert(rv.nonce == announcement@.oracle_event.oracle_nonces[perm[t as int]]);
                assert(self@.nonces =~= pre.push(rv));
                assert forall|l: int| 0 <= l < t implies (#[trigger] self@.nonces[old_nonces.len()
                    + l]) == pre[old_nonces.len() + l] by {}
                lemma_slots_push(pre, rv, id);
                assert(self@.nonces.skip(old_nonces.len() as int) =~= pre.skip(
                    old_nonces.len() as int,
                ).push(rv));
                assert(slots_of(self@.nonces, id) == slots_of(pre, id).push(rv));
                assert(slots_of(self@.nonces, id) =~= self@.nonces.skip(
                    old_nonces.len() as int,
                ));
                assert forall|oid: Seq<char>| oid != id implies #[trigger] slots_of(
                    self@.nonces,
                    oid,
                ) =~= slots_of(old_nonces, oid) by {
                    lemma_slots_push(pre, rv, oid);
                }
            }
            t = t + 1;
        }
        proof {
            let fin = self@;
            let n_ = n as int;
            let block = fin.nonces.skip(old_nonces.len() as int);
            assert(block.len() == n_);
            assert forall|l: int| 0 <= l < n_ implies block[l]
                == fin.nonces[old_nonces.len() + l] by {}
            assert(block.map_values(|nv: EventNonceView| nv.index) =~= sp@.map_values(
                |p: (u32, usize)| p.0,
            ));
            // distinctness of the requested indexes carries to the block:
            // its index multiset is the request's, whose sequence repeats
            // no value.
            indexes@.lemma_multiset_has_no_duplicates();
            assert(block.map_values(|nv: EventNonceView| nv.index).to_multiset()
                == indexes@.to_multiset());
            block.map_values(|nv: EventNonceView| nv.index).lemma_multiset_has_no_duplicates_conv();
            assert forall|a: int, b: int| 0 <= a < b < n_ implies block[a].index
                < block[b].index by {
                assert(block.map_values(|nv: EventNonceView| nv.index)[a] == block[a].index);
                assert(block.map_values(|nv: EventNonceView| nv.index)[b] == block[b].index);
                assert(block[a].index != block[b].index);
                assert(sp@[a].0 <= sp@[b].0);
            }
            // each slot carries the nonce that was supplied beside its index
            assert forall|k: int| 0 <= k < n_ implies ({
                let j = index_position(indexes@, (#[trigger] block[k]).index);
                &&& 0 <= j < n_
                &&& indexes@[j] == block[k].index
                &&& block[k].nonce == announcement@.oracle_event.oracle_nonces[j]
            }) by {
                assert(block[k] == fin.nonces[old_nonces.len() + k]);
                assert(block[k].index == sp@[k].0);
                assert(sp@[k] == (indexes@[perm[k]], perm[k] as usize));
                assert(indexes@[perm[k]] == block[k].index);
                let j = index_position(indexes@, block[k].index);
                assert(0 <= j < n_ && indexes@[j] == block[k].index);
                assert(j == perm[k]);
                assert(block[k].nonce == announcement@.oracle_event.oracle_nonces[perm[k]]);
            }
            // the table constraints are preserved
            assert forall|a: int, b: int| 0 <= a < b < fin.events.len() implies fin.events[a].event_id
                != fin.events[b].event_id by {
                assert(fin.events[a] == old_events[a]);
                if b < fin.events.len() - 1 {
                    assert(fin.events[b] == old_events[b]);
                } else {
                    assert(fin.events[b].event_id == id);
                    assert(old_events[a].event_id != id);
                }
            }
            assert forall|a: int, b: int| 0 <= a < b < fin.nonces.len() implies fin.nonces[a].id
                != fin.nonces[b].id by {
                let ol = old_nonces.len() as int;
                if a >= ol {
                    assert(block[a - ol].index != block[b - ol].index);
                } else if b >= ol {
                    assert(fin.nonces.take(ol)[a] == fin.nonces[a]);
                    assert(old_nonces[a] == fin.nonces[a]);
                    let bk = block[b - ol];
                    assert(bk.index == block.map_values(|nv: EventNonceView| nv.index)[b - ol]);
                    assert(block.map_values(|nv: EventNonceView| nv.index).to_multiset().count(
                        bk.index,
                    ) > 0) by {
                        broadcast use vstd::multiset::group_multiset_axioms;

                        block.map_values(|nv: EventNonceView| nv.index).to_multiset_ensures();
                        assert(block.map_values(|nv: EventNonceView| nv.index).contains(bk.index));
                    }
                    assert(indexes@.to_multiset().count(bk.index) > 0);
                    assert(indexes@.contains(bk.index)) by {
                        broadcast use vstd::multiset::group_multiset_axioms;

                        indexes@.to_multiset_ensures();
                    }
                    let q = choose|q: int| 0 <= q < indexes@.len() && indexes@[q] == bk.index;
                    assert(indexes@[q] != old_nonces[a].id);
                } else {
                    assert(fin.nonces.take(ol)[a] == fin.nonces[a]);
                    assert(fin.nonces.take(ol)[b] == fin.nonces[b]);
                    assert(old_nonces[a] == fin.nonces[a]);
                    assert(old_nonces[b] == fin.nonces[b]);
                }
            }
            assert forall|a: int| 0 <= a < fin.nonces.len() implies has_event_row(
                fin.events,
                (#[trigger] fin.nonces[a]).event_id,
            ) by {
                let ol = old_nonces.len() as int;
                if a < ol {
                    assert(fin.nonces.take(ol)[a] == fin.nonces[a]);
                    assert(old_nonces[a] == fin.nonces[a]);
                    assert(has_event_row(old_events, old_nonces[a].event_id));
                    let w = event_row_pos(old_events, old_nonces[a].event_id);
                    assert(fin.events[w].event_id == old_nonces[a].event_id);
                } else {
                    assert(block[a - ol] == fin.nonces[a]);
                    assert(fin.nonces[a].event_id == id);
                    assert(fin.events[fin.events.len() - 1].event_id == id);
                }
            }
            assert forall|a: int|
                0 <= a < fin.nonces.len() implies (#[trigger] fin.nonces[a]).id
                == fin.nonces[a].index && (fin.nonces[a].outcome is Some
                <==> fin.nonces[a].signature is Some) by {
                let ol = old_nonces.len() as int;
                if a < ol {
                    assert(fin.nonces.take(ol)[a] == fin.nonces[a]);
                    assert(old_nonces[a] == fin.nonces[a]);
                } else {
                    assert(block[a - ol] == fin.nonces[a]);
                }
            }
            assert forall|a: int, b: int|
                0 <= a < b < fin.nonces.len() && (#[trigger] fin.nonces[a]).event_id == (
            #[trigger] fin.nonces[b]).event_id implies fin.nonces[a].index
                < fin.nonces[b].index by {
                let ol = old_nonces.len() as int;
                if b >= ol && a < ol {
                    assert(block[b - ol] == fin.nonces[b]);
                    assert(fin.nonces[b].event_id == id);
                    assert(fin.nonces.take(ol)[a] == fin.nonces[a]);
                    assert(old_nonces[a] == fin.nonces[a]);
                    assert(old_nonces[a].event_id != id);
                } else if a >= ol {
                    assert(block[a - ol] == fin.nonces[a]);
                    assert(block[b - ol] == fin.nonces[b]);
                    assert(block[a - ol].index < block[b - ol].index);
                } else {
                    assert(fin.nonces.take(ol)[a] == fin.nonces[a]);
                    assert(fin.nonces.take(ol)[b] == fin.nonces[b]);
                    assert(old_nonces[a] == fin.nonces[a]);
                    assert(old_nonces[b] == fin.nonces[b]);
                }
            }
            assert(tables_wf(fin.events, fin.nonces));
            assert(fin.events.take(old_events.len() as int) =~= old_events);
            assert(fin.events.last() == erow);
        }
        Ok(event_id)
    }
}

} // verus!

verus! {

/// The slots with the pairs at rank `t` and beyond written, the rest as
/// they were: the state part-way through a signing pass that works from
/// the highest rank down.
pub open spec fn sign_slots_from(
    slots: Seq<EventNonceView>,
    pairs: Seq<(Seq<char>, Seq<u8>)>,
    t: int,
) -> Seq<EventNonceView> {
    Seq::new(
        slots.len(),
        |k: int|
            if k >= t {
                EventNonceView {
                    outcome: Some(pairs[k].0),
                    signature: Some(pairs[k].1),
                    ..slots[k]
                }
            } else {
                slots[k]
            },
    )
}

/// Positions in the slot table of the rows owned by `event_id`, in table
/// order: one position per slot, each the stated rank of its row.
#[verifier::loop_isolation(false)]
fn collect_slot_positions(nonces: &Vec<EventNonce>, event_id: &String) -> (r: Vec<usize>)
    ensures
        ({
            let deep = nonces.deep_view();
            let slots = slots_of(deep, event_id@);
            &&& r@.len() == slots.len()
            &&& forall|k: int| 0 <= k < r@.len() ==> (#[trigger] r@[k]) < nonces@.len()
            &&& forall|k: int|
                0 <= k < r@.len() ==> deep[(#[trigger] r@[k]) as int] == slots[k]
            &&& forall|k: int|
                0 <= k < r@.len() ==> slots_of(deep.take((#[trigger] r@[k]) as int), event_id@).len()
                    == k
            &&& forall|k: int, l: int| 0 <= k < l < r@.len() ==> r@[k] < r@[l]
        }),
{
    let ghost deep = nonces.deep_view();
    let ghost id = event_id@;
    let mut r: Vec<usize> = Vec::new();
    let mut i: usize = 0;
    while i < nonces.len()
        invariant
            i <= nonces@.len(),
            r@.len() == slots_of(deep.take(i as int), id).len(),
            forall|k: int| 0 <= k < r@.len() ==> (#[trigger] r@[k]) < i,
            forall|k: int|
                0 <= k < r@.len() ==> deep[(#[trigger] r@[k]) as int] == slots_of(
                    deep.take(i as int),
                    id,
                )[k],
            forall|k: int|
                0 <= k < r@.len() ==> slots_of(deep.take((#[trigger] r@[k]) as int), id).len()
                    == k,
            forall|k: int, l: int| 0 <= k < l < r@.len() ==> r@[k] < r@[l],
        decreases nonces@.len() - i,
    {
        proof {
            assert(deep.take(i + 1 as int) =~= deep.take(i as int).push(deep[i as int]));
            lemma_slots_push(deep.take(i as int), deep[i as int], id);
            assert(deep[i as int] == nonces@[i as int].deep_view());
        }
        if nonces[i].event_id == *event_id {
            r.push(i);
        }
        i = i + 1;
    }
    proof {
        assert(deep.take(nonces@.len() as int) =~= deep);
    }
    r
}

impl EventDatabase {
    /// Reconstructs the projection of the event at table position
    /// `event_pos`, given the positions of its slot rows.
    #[verifier::loop_isolation(false)]
    fn build_projection(&self, event_pos: usize, positions: &Vec<usize>) -> (r: OracleEventData)
        requires
            self.inv(),
            event_pos < self.events@.len(),
            ({
                let id = self@.events[event_pos as int].event_id;
                let slots = slots_of(self@.nonces, id);
                &&& positions@.len() == slots.len()
                &&& forall|k: int|
                    0 <= k < positions@.len() ==> (#[trigger] positions@[k]) < self.nonces@.len()
                &&& forall|k: int|
                    0 <= k < positions@.len() ==> self@.nonces[(#[trigger] positions@[k]) as int]
                        == slots[k]
            }),
        ensures
            Some(r@) == projection_of(self@, self@.events[event_pos as int].event_id),
    {
        let ghost id = self@.events[event_pos as int].event_id;
        let ghost slots = slots_of(self@.nonces, id);
        proof {
            lemma_slots_membership(self@.nonces, id);
        }
        let mut indexes: Vec<u32> = Vec::new();
        let mut k: usize = 0;
        while k < positions.len()
            invariant
                k <= positions@.len(),
                indexes@.len() == k,
                forall|l: int| 0 <= l < k ==> (#[trigger] indexes@[l]) == slots[l].index,
            decreases positions@.len() - k,
        {
            let p = positions[k];
            proof {
                assert(self@.nonces[p as int] == self.nonces@[p as int].deep_view());
            }
            indexes.push(self.nonces[p].index);
            k = k + 1;
        }
        let mut sigs: Vec<(String, Vec<u8>)> = Vec::new();
        let mut k2: usize = 0;
        while k2 < positions.len()
            invariant
                k2 <= positions@.len(),
                sigs@.len() == signed_pairs(slots.take(k2 as int)).len(),
                forall|l: int|
                    0 <= l < sigs@.len() ==> (#[trigger] sigs@[l].0@) == signed_pairs(
                        slots.take(k2 as int),
                    )[l].0 && sigs@[l].1@ == signed_pairs(slots.take(k2 as int))[l].1,
            decreases positions@.len() - k2,
        {
            proof {
                assert(slots.take(k2 + 1 as int) =~= slots.take(k2 as int).push(
                    slots[k2 as int],
                ));
                lemma_signed_pairs_push(slots.take(k2 as int), slots[k2 as int]);
            }
            let p = positions[k2];
            proof {
                assert(self@.nonces[p as int] == self.nonces@[p as int].deep_view());
            }
            let row = &self.nonces[p];
            proof {
                assert(row@ == slots[k2 as int]);
            }
            match (&row.outcome, &row.signature) {
                (Some(o), Some(sg)) => {
                    proof {
                        assert(slots[k2 as int].outcome == Some(o@));
                        assert(slots[k2 as int].signature == Some(sg@));
                        assert(signed_pairs(slots.take(k2 + 1 as int)) == signed_pairs(
                            slots.take(k2 as int),
                        ).push((o@, sg@)));
                    }
                    sigs.push((o.clone(), clone_bytes(sg)));
                },
                _ => {
                    proof {
                        assert(!(slots[k2 as int].outcome is Some && slots[k2 as int].signature
                            is Some));
                        assert(signed_pairs(slots.take(k2 + 1 as int)) == signed_pairs(
                            slots.take(k2 as int),
                        ));
                    }
                },
            }
            k2 = k2 + 1;
        }
        proof {
            assert(slots.take(slots.len() as int) =~= slots);
        }
        let event = &self.events[event_pos];
        proof {
            assert(self@.events[event_pos as int] == self.events@[event_pos as int].deep_view());
        }
        let r = OracleEventData {
            event_id: event.event_id.clone(),
            announcement: crate::types::OracleAnnouncement {
                announcement_signature: clone_bytes(&event.announcement_signature),
                oracle_public_key: clone_bytes(&self.oracle_public_key),
                oracle_event: event.oracle_event.clone(),
            },
            indexes,
            signatures: sigs,
            announcement_event_id: clone_opt_string(&event.announcement_event_id),
            attestation_event_id: clone_opt_string(&event.attestation_event_id),
        };
        proof {
            lemma_row_pos_unique(self@.events, event_pos as int, id);
            let d = projection_of(self@, id).unwrap();
            assert(r@.event_id == d.event_id);
            assert(r@.announcement == d.announcement);
            assert(r@.indexes =~= d.indexes);
            assert forall|l: int| 0 <= l < sigs@.len() implies #[trigger] r@.signatures[l]
                == d.signatures[l] by {
                assert(r@.signatures[l] == (sigs@[l].0@, sigs@[l].1@));
            }
            assert(r@.signatures =~= d.signatures);
            assert(r@.announcement_event_id == d.announcement_event_id);
            assert(r@.attestation_event_id == d.attestation_event_id);
            assert(r@ == d);
        }
        r
    }

    /// Reads the latest committed projection of `event_id`: the join of
    /// its event row with its slot rows — or `None` for an unknown id,
    /// never an error.
    pub fn get_event(&self, event_id: String) -> (r: Option<OracleEventData>)
        requires
            self.inv(),
        ensures
            match projection_of(self@, event_id@) {
                Some(d) => r is Some && r.unwrap()@ == d,
                None => r is None,
            },
    {
        match find_event_row(&self.events, &event_id) {
            Some(i) => {
                proof {
                    lemma_row_found(self.events, i as int, event_id@);
                    lemma_row_pos_unique(self@.events, i as int, event_id@);
                }
                let positions = collect_slot_positions(&self.nonces, &event_id);
                Some(self.build_projection(i, &positions))
            },
            None => {
                proof {
                    lemma_row_not_found(self.events, event_id@);
                }
                None
            },
        }
    }

    /// Reads every stored event's projection, in table order.
    #[verifier::loop_isolation(false)]
    pub fn list_events(&self) -> (r: Vec<OracleEventData>)
        requires
            self.inv(),
        ensures
            r@.len() == self@.events.len(),
            forall|i: int|
                0 <= i < r@.len() ==> Some((#[trigger] r@[i])@) == projection_of(
                    self@,
                    self@.events[i].event_id,
                ),
    {
        let mut r: Vec<OracleEventData> = Vec::new();
        let mut i: usize = 0;
        while i < self.events.len()
            invariant
                i <= self.events@.len(),
                r@.len() == i,
                forall|j: int|
                    0 <= j < i ==> Some((#[trigger] r@[j])@) == projection_of(
                        self@,
                        self@.events[j].event_id,
                    ),
            decreases self.events@.len() - i,
        {
            proof {
                assert(self@.events[i as int] == self.events@[i as int].deep_view());
            }
            let positions = collect_slot_positions(&self.nonces, &self.events[i].event_id);
            let data = self.build_projection(i, &positions);
            r.push(data);
            i = i + 1;
        }
        r
    }
}

} // verus!

verus! {

impl EventDatabase {
    /// Writes the (outcome, signature) pairs of a realized event, exactly
    /// once, matched positionally against the event's slots in ascending
    /// index order — the pair list is assumed index-ordered, a documented
    /// precondition of the interface, not verified here. Fails with
    /// `NotFound` for an unknown id, `InvalidOutcome` when the pair count
    /// differs from the slot count, and `EventAlreadySigned` when any
    /// slot already carries a signature; every failure leaves both tables
    /// untouched. On success each slot row gets its pair — one atomic
    /// pass, as a single transaction would write it — and the refreshed
    /// projection is returned.
    #[verifier::loop_isolation(false)]
    #[verifier::rlimit(100)]
    pub fn save_signatures(
        &mut self,
        event_id: String,
        signatures: Vec<(String, Vec<u8>)>,
    ) -> (r: Result<OracleEventData, Error>)
        requires
            old(self).inv(),
        ensures
            final(self).inv(),
            r is Err ==> final(self)@ == old(self)@,
            !has_event_row(old(self)@.events, event_id@) ==> r == Err::<OracleEventData, Error>(
                Error::NotFound,
            ),
            has_event_row(old(self)@.events, event_id@) && signatures@.len() != slots_of(
                old(self)@.nonces,
                event_id@,
            ).len() ==> r == Err::<OracleEventData, Error>(Error::InvalidOutcome),
            has_event_row(old(self)@.events, event_id@) && signatures@.len() == slots_of(
                old(self)@.nonces,
                event_id@,
            ).len() && (exists|k: int|
                0 <= k < slots_of(old(self)@.nonces, event_id@).len() && (#[trigger] slots_of(
                    old(self)@.nonces,
                    event_id@,
                )[k].signature) is Some) ==> r == Err::<OracleEventData, Error>(
                Error::EventAlreadySigned,
            ),
            has_event_row(old(self)@.events, event_id@) && signatures@.len() == slots_of(
                old(self)@.nonces,
                event_id@,
            ).len() && (forall|k: int|
                0 <= k < slots_of(old(self)@.nonces, event_id@).len() ==> (#[trigger] slots_of(
                    old(self)@.nonces,
                    event_id@,
                )[k].signature) is None) ==> ({
                let slots = slots_of(old(self)@.nonces, event_id@);
                let signed = sign_slots(slots, signatures.deep_view());
                &&& r is Ok
                &&& final(self)@.events == old(self)@.events
                &&& final(self)@.current_index == old(self)@.current_index
                &&& final(self)@.oracle_public_key == old(self)@.oracle_public_key
                &&& final(self)@.nonces.len() == old(self)@.nonces.len()
                &&& forall|j: int|
                    0 <= j < old(self)@.nonces.len() && (#[trigger] old(
                        self,
                    )@.nonces[j]).event_id != event_id@ ==> final(self)@.nonces[j] == old(
                        self,
                    )@.nonces[j]
                &&& slots_of(final(self)@.nonces, event_id@) == signed
                &&& forall|oid: Seq<char>|
                    oid != event_id@ ==> #[trigger] slots_of(final(self)@.nonces, oid)
                        == slots_of(old(self)@.nonces, oid)
                &&& r.unwrap()@ == projection_of(final(self)@, event_id@).unwrap()
            }),
    {
        let ghost id = event_id@;
        let event_pos = match find_event_row(&self.events, &event_id) {
            Some(i) => i,
            None => {
                proof {
                    lemma_row_not_found(self.events, id);
                }
                return Err(Error::NotFound);
            },
        };
        proof {
            lemma_row_found(self.events, event_pos as int, id);
            lemma_row_pos_unique(self@.events, event_pos as int, id);
            lemma_slots_membership(self@.nonces, id);
        }
        let ghost slots = slots_of(old(self)@.nonces, id);
        let positions = collect_slot_positions(&self.nonces, &event_id);
        if signatures.len() != positions.len() {
            return Err(Error::InvalidOutcome);
        }
        let mut k: usize = 0;
        while k < positions.len()
            invariant
                *self == *old(self),
                k <= positions@.len(),
                forall|l: int| 0 <= l < k ==> (#[trigger] slots[l].signature) is None,
            decreases positions@.len() - k,
        {
            proof {
                assert(self@.nonces[positions@[k as int] as int] == self.nonces@[positions@[
                    k as int
                ] as int].deep_view());
            }
            if self.nonces[positions[k]].signature.is_some() {
                return Err(Error::EventAlreadySigned);
            }
            k = k + 1;
        }
        let ghost pairs = signatures.deep_view();
        let ghost old_nonces = old(self)@.nonces;
        let mut t: usize = positions.len();
        proof {
            assert(sign_slots_from(slots, pairs, t as int) =~= slots);
            assert(slots_of(self@.nonces, id) =~= sign_slots_from(slots, pairs, t as int));
        }
        while t > 0
            invariant
                t <= positions@.len(),
                positions@.len() == slots.len(),
                positions@.len() == signatures@.len(),
                self@.events == old(self)@.events,
                self@.current_index == old(self)@.current_index,
                self@.oracle_public_key == old(self)@.oracle_public_key,
                self@.nonces.len() == old_nonces.len(),
                forall|j: int|
                    0 <= j < old_nonces.len() ==> (#[trigger] self@.nonces[j]).event_id
                        == old_nonces[j].event_id && self@.nonces[j].id == old_nonces[j].id
                        && self@.nonces[j].index == old_nonces[j].index,
                forall|j: int|
                    0 <= j < old_nonces.len() && (#[trigger] old_nonces[j]).event_id != id
                        ==> self@.nonces[j] == old_nonces[j],
                forall|j: int|
                    0 <= j < old_nonces.len() ==> (#[trigger] self@.nonces[j]) == old_nonces[j]
                        || (self@.nonces[j].outcome is Some && self@.nonces[j].signature
                        is Some),
                t < positions@.len() ==> forall|j: int|
                    0 <= j < (positions@[t as int] as int) ==> (#[trigger] self@.nonces[j])
                        == old_nonces[j],
                t == positions@.len() ==> self@.nonces == old_nonces,
                slots_of(self@.nonces, id) =~= sign_slots_from(slots, pairs, t as int),
                forall|oid: Seq<char>|
                    oid != id ==> #[trigger] slots_of(self@.nonces, oid) =~= slots_of(
                        old_nonces,
                        oid,
                    ),
            decreases t,
        {
            t = t - 1;
            let p = positions[t];
            proof {
                if t + 1 < positions@.len() {
                    assert(p < positions@[t + 1 as int]);
                }
                assert(self@.nonces[p as int] == old_nonces[p as int]);
                assert(old_nonces[p as int] == slots[t as int]);
                assert(self@.nonces[p as int] == self.nonces@[p as int].deep_view());
            }
            let cur = &self.nonces[p];
            let newrow = EventNonce {
                id: cur.id,
                event_id: cur.event_id.clone(),
                index: cur.index,
                nonce: clone_bytes(&cur.nonce),
                outcome: Some(signatures[t].0.clone()),
                signature: Some(clone_bytes(&signatures[t].1)),
            };
            let ghost pre = self@.nonces;
            let ghost rv = newrow@;
            self.nonces.set(p, newrow);
            proof {
                assert(self@.nonces =~= pre.update(p as int, rv));
                assert(rv.event_id == id);
                assert(rv == EventNonceView {
                    outcome: Some(pairs[t as int].0),
                    signature: Some(pairs[t as int].1),
                    ..slots[t as int]
                });
                assert(pre.take(p as int) =~= old_nonces.take(p as int));
                assert(slots_of(pre.take(p as int), id).len() == t as int);
                lemma_slots_update(pre, p as int, rv, id);
                assert(slots_of(self@.nonces, id) =~= slots_of(pre, id).update(t as int, rv));
                assert(slots_of(self@.nonces, id) =~= sign_slots_from(slots, pairs, t as int));
                assert forall|oid: Seq<char>| oid != id implies #[trigger] slots_of(
                    self@.nonces,
                    oid,
                ) =~= slots_of(old_nonces, oid) by {
                    assert(slots_of(pre.update(p as int, rv), oid) =~= slots_of(pre, oid));
                }
            }
        }
        proof {
            let fin = self@;
            assert(slots_of(fin.nonces, id) =~= sign_slots(slots, pairs));
            // the table constraints survive: keys, indexes and owners are
            // untouched, and a rewritten row carries outcome and signature
            // together
            assert forall|a: int, b: int| 0 <= a < b < fin.nonces.len() implies fin.nonces[a].id
                != fin.nonces[b].id by {
                assert(fin.nonces[a].id == old_nonces[a].id);
                assert(fin.nonces[b].id == old_nonces[b].id);
            }
            assert forall|a: int| 0 <= a < fin.nonces.len() implies has_event_row(
                fin.events,
                (#[trigger] fin.nonces[a]).event_id,
            ) by {
                assert(fin.nonces[a].event_id == old_nonces[a].event_id);
                assert(has_event_row(old(self)@.events, old_nonces[a].event_id));
            }
            assert forall|a: int|
                0 <= a < fin.nonces.len() implies ((#[trigger] fin.nonces[a]).outcome is Some
                <==> fin.nonces[a].signature is Some) by {
                if fin.nonces[a] == old_nonces[a] {
                } else {
                    assert(fin.nonces[a].outcome is Some && fin.nonces[a].signature is Some);
                }
            }
            assert forall|a: int, b: int|
                0 <= a < b < fin.nonces.len() && (#[trigger] fin.nonces[a]).event_id == (
            #[trigger] fin.nonces[b]).event_id implies fin.nonces[a].index
                < fin.nonces[b].index by {
                assert(fin.nonces[a].event_id == old_nonces[a].event_id);
                assert(fin.nonces[b].event_id == old_nonces[b].event_id);
                assert(fin.nonces[a].index == old_nonces[a].index);
                assert(fin.nonces[b].index == old_nonces[b].index);
            }
            assert(tables_wf(fin.events, fin.nonces));
        }
        let positions2 = collect_slot_positions(&self.nonces, &event_id);
        proof {
            lemma_row_pos_unique(self@.events, event_pos as int, id);
            assert(self@.events[event_pos as int] == self.events@[event_pos as int].deep_view());
        }
        let data = self.build_projection(event_pos, &positions2);
        Ok(data)
    }

    /// Records, after the fact, the identifier under which the
    /// announcement was published: a single field fill keyed by event id,
    /// outside the announce/sign protocol and without overwrite
    /// protection; an unknown id updates nothing, as a relational update
    /// that matches no row.
    pub fn add_announcement_event_id(&mut self, event_id: String, nostr_event_id: String) -> (r:
        Result<(), Error>)
        requires
            old(self).inv(),
        ensures
            final(self).inv(),
            r is Ok,
            !has_event_row(old(self)@.events, event_id@) ==> final(self)@ == old(self)@,
            has_event_row(old(self)@.events, event_id@) ==> ({
                let p = event_row_pos(old(self)@.events, event_id@);
                &&& final(self)@.events == old(self)@.events.update(
                    p,
                    EventView {
                        announcement_event_id: Some(nostr_event_id@),
                        ..old(self)@.events[p]
                    },
                )
                &&& final(self)@.nonces == old(self)@.nonces
                &&& final(self)@.current_index == old(self)@.current_index
                &&& final(self)@.oracle_public_key == old(self)@.oracle_public_key
            }),
    {
        let i = match find_event_row(&self.events, &event_id) {
            Some(i) => i,
            None => {
                proof {
                    lemma_row_not_found(self.events, event_id@);
                }
                return Ok(());
            },
        };
        proof {
            lemma_row_found(self.events, i as int, event_id@);
            lemma_row_pos_unique(self@.events, i as int, event_id@);
        }
        let row = &self.events[i];
        let newrow = Event {
            event_id: row.event_id.clone(),
            announcement_signature: clone_bytes(&row.announcement_signature),
            oracle_event: row.oracle_event.clone(),
            name: row.name.clone(),
            is_enum: row.is_enum,
            announcement_event_id: Some(nostr_event_id),
            attestation_event_id: clone_opt_string(&row.attestation_event_id),
        };
        let ghost pre = self@.events;
        let ghost rv = newrow@;
        self.events.set(i, newrow);
        proof {
            assert(self@.events =~= pre.update(
                i as int,
                EventView { announcement_event_id: Some(nostr_event_id@), ..pre[i as int] },
            ));
            assert forall|a: int| 0 <= a < self@.events.len() implies (
            #[trigger] self@.events[a]).event_id == pre[a].event_id by {}
            assert forall|a: int| 0 <= a < self@.nonces.len() implies has_event_row(
                self@.events,
                (#[trigger] self@.nonces[a]).event_id,
            ) by {
                assert(has_event_row(pre, self@.nonces[a].event_id));
                let w = event_row_pos(pre, self@.nonces[a].event_id);
                assert(self@.events[w].event_id == self@.nonces[a].event_id);
            }
            assert(tables_wf(self@.events, self@.nonces));
        }
        Ok(())
    }

    /// Records, after the fact, the identifier under which the
    /// attestation was published; otherwise as
    /// [`Self::add_announcement_event_id`].
    pub fn add_attestation_event_id(&mut self, event_id: String, nostr_event_id: String) -> (r:
        Result<(), Error>)
        requires
            old(self).inv(),
        ensures
            final(self).inv(),
            r is Ok,
            !has_event_row(old(self)@.events, event_id@) ==> final(self)@ == old(self)@,
            has_event_row(old(self)@.events, event_id@) ==> ({
                let p = event_row_pos(old(self)@.events, event_id@);
                &&& final(self)@.events == old(self)@.events.update(
                    p,
                    EventView {
                        attestation_event_id: Some(nostr_event_id@),
                        ..old(self)@.events[p]
                    },
                )
                &&& final(self)@.nonces == old(self)@.nonces
                &&& final(self)@.current_index == old(self)@.current_index
                &&& final(self)@.oracle_public_key == old(self)@.oracle_public_key
            }),
    {
        let i = match find_event_row(&self.events, &event_id) {
            Some(i) => i,
            None => {
                proof {
                    lemma_row_not_found(self.events, event_id@);
                }
                return Ok(());
            },
        };
        proof {
            lemma_row_found(self.events, i as int, event_id@);
            lemma_row_pos_unique(self@.events, i as int, event_id@);
        }
        let row = &self.events[i];
        let newrow = Event {
            event_id: row.event_id.clone(),
            announcement_signature: clone_bytes(&row.announcement_signature),
            oracle_event: row.oracle_event.clone(),
            name: row.name.clone(),
            is_enum: row.is_enum,
            announcement_event_id: clone_opt_string(&row.announcement_event_id),
            attestation_event_id: Some(nostr_event_id),
        };
        let ghost pre = self@.events;
        self.events.set(i, newrow);
        proof {
            assert(self@.events =~= pre.update(
                i as int,
                EventView { attestation_event_id: Some(nostr_event_id@), ..pre[i as int] },
            ));
            assert forall|a: int| 0 <= a < self@.events.len() implies (
            #[trigger] self@.events[a]).event_id == pre[a].event_id by {}
            assert forall|a: int| 0 <= a < self@.nonces.len() implies has_event_row(
                self@.events,
                (#[trigger] self@.nonces[a]).event_id,
            ) by {
                assert(has_event_row(pre, self@.nonces[a].event_id));
                let w = event_row_pos(pre, self@.nonces[a].event_id);
                assert(self@.events[w].event_id == self@.nonces[a].event_id);
            }
            assert(tables_wf(self@.events, self@.nonces));
        }
        Ok(())
    }
}

} // verus!

verus! {

/// Law: after a successful announcement save, the projection read back
/// under the announcement's event id is that announcement — the store
/// stamps its own oracle key on the read, so the key must be the
/// announcing oracle's — with the requested indexes in ascending order
/// and an empty signature list.
pub proof fn lemma_saved_announcement_readable(
    db: EventDatabaseView,
    ann: OracleAnnouncementView,
    idx: Seq<u32>,
)
    requires
        has_event_row(db.events, ann.oracle_event.event_id),
        ({
            let e = db.events[event_row_pos(db.events, ann.oracle_event.event_id)];
            &&& e.announcement_signature == ann.announcement_signature
            &&& e.oracle_event == ann.oracle_event
        }),
        db.oracle_public_key == ann.oracle_public_key,
        ({
            let slots = slots_of(db.nonces, ann.oracle_event.event_id);
            &&& forall|k: int|
                0 <= k < slots.len() ==> (#[trigger] slots[k].signature) is None
            &&& forall|k: int, l: int| 0 <= k < l < slots.len() ==> slots[k].index < slots[l].index
            &&& slots.map_values(|nv: EventNonceView| nv.index).to_multiset()
                == idx.to_multiset()
        }),
    ensures
        projection_of(db, ann.oracle_event.event_id) is Some,
        ({
            let d = projection_of(db, ann.oracle_event.event_id).unwrap();
            &&& d.announcement == ann
            &&& crate::sorting::sorted(d.indexes)
            &&& d.indexes.to_multiset() == idx.to_multiset()
            &&& d.indexes.len() == idx.len()
            &&& d.signatures.len() == 0
        }),
{
    let id = ann.oracle_event.event_id;
    let slots = slots_of(db.nonces, id);
    lemma_signed_pairs_unsigned(slots);
    let d = projection_of(db, id).unwrap();
    assert forall|k: int, l: int| 0 <= k < l < d.indexes.len() implies d.indexes[k]
        <= d.indexes[l] by {
        assert(d.indexes[k] == slots[k].index);
        assert(d.indexes[l] == slots[l].index);
    }
    vstd::seq_lib::to_multiset_len(d.indexes);
    vstd::seq_lib::to_multiset_len(idx);
    assert(d.indexes =~= slots.map_values(|nv: EventNonceView| nv.index));
}

/// Law: a signed event stays signed. Once the slots carry the pairs of a
/// successful signature save — at least one — some stored slot holds a
/// signature, so a second save on the same id meets exactly the
/// already-signed error case and changes nothing.
pub proof fn lemma_signed_event_stays_signed(
    db: EventDatabaseView,
    id: Seq<char>,
    s0: Seq<EventNonceView>,
    pairs: Seq<(Seq<char>, Seq<u8>)>,
)
    requires
        slots_of(db.nonces, id) == sign_slots(s0, pairs),
        s0.len() > 0,
    ensures
        exists|k: int|
            0 <= k < slots_of(db.nonces, id).len() && (#[trigger] slots_of(
                db.nonces,
                id,
            )[k].signature) is Some,
{
    assert(slots_of(db.nonces, id)[0].signature is Some);
}

/// Law: round trip. After announcing and then signing, the projection
/// returns exactly the pairs that were written, in slot order, over the
/// slot indexes laid down at the announcement.
pub proof fn lemma_round_trip_projection(
    db: EventDatabaseView,
    id: Seq<char>,
    s0: Seq<EventNonceView>,
    pairs: Seq<(Seq<char>, Seq<u8>)>,
)
    requires
        has_event_row(db.events, id),
        slots_of(db.nonces, id) == sign_slots(s0, pairs),
        pairs.len() == s0.len(),
    ensures
        projection_of(db, id) is Some,
        projection_of(db, id).unwrap().signatures == pairs,
        projection_of(db, id).unwrap().indexes == s0.map_values(|nv: EventNonceView| nv.index),
{
    lemma_signed_pairs_of_sign_slots(s0, pairs);
    assert(sign_slots(s0, pairs).map_values(|nv: EventNonceView| nv.index) =~= s0.map_values(
        |nv: EventNonceView| nv.index,
    ));
}

} // verus!
