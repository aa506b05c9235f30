//! The idempotency guard: reserving and resolving an (actor, key) pair to a
//! single recorded response.
//!
//! `begin` either replays the response cached for a completed record or
//! hands out a reservation; `finish` commits the caller's response into the
//! reservation, flipping it to completed exactly once.  Concurrent duplicate
//! submissions serialize through the store's lock on the reservation row, so
//! every transition here is one serialized step.  A `Pending` record whose
//! holder has disappeared (a crashed execution) is treated as an expired
//! lease: `begin` hands the reservation to the new caller instead of
//! blocking forever; the record, never deleted, is completed by whichever
//! execution finishes.

use crate::response::{ResponseView, SavedResponse};
use crate::store::{
    has_record, is_record_for, record_index, well_formed, IdempotencyRecord, RecordState,
    RecordStateView, RecordView, Store, StoreView,
};
use vstd::prelude::*;

verus! {

/// Whether the record for `(actor, key)` exists and is completed with
/// cached response `r`.
pub open spec fn completed_with(
    records: Seq<RecordView>,
    actor: u128,
    key: Seq<char>,
    r: ResponseView,
) -> bool {
    &&& has_record(records, actor, key)
    &&& records[record_index(records, actor, key)].state == RecordStateView::Completed(r)
}

/// Whether the record for `(actor, key)` exists and is still pending.
pub open spec fn record_pending(records: Seq<RecordView>, actor: u128, key: Seq<char>) -> bool {
    &&& has_record(records, actor, key)
    &&& records[record_index(records, actor, key)].state is Pending
}

/// With unique keys, any index holding the record for `(actor, key)` is the
/// index `record_index` denotes.
pub proof fn lemma_record_index_is(records: Seq<RecordView>, actor: u128, key: Seq<char>, i: int)
    requires
        forall|a: int, b: int|
            0 <= a < b < records.len() ==> !(#[trigger] records[a].actor_id == #[trigger] records[b].actor_id
                && records[a].key == records[b].key),
        0 <= i < records.len(),
        is_record_for(records[i], actor, key),
    ensures
        has_record(records, actor, key),
        record_index(records, actor, key) == i,
{
    assert(has_record(records, actor, key));
    let j = record_index(records, actor, key);
    assert(0 <= j < records.len() && is_record_for(records[j], actor, key));
    if i < j {
        assert(records[i].actor_id == records[j].actor_id && records[i].key == records[j].key);
    } else if j < i {
        assert(records[j].actor_id == records[i].actor_id && records[j].key == records[i].key);
    }
}

/// A live reservation for `(actor, key)`; the holder must eventually hand it
/// to `finish` together with the response to cache.
pub struct ReservationHandle {
    pub actor_id: u128,
    pub key: String,
}

/// What `begin` resolves an (actor, key) pair to: the cached response of an
/// already-completed execution, or a reservation to proceed under.
pub enum BeginOutcome {
    Replay(SavedResponse),
    Proceed(ReservationHandle),
}

impl Store {
    /// Reserves `(actor, key)`, or replays its cached response.
    ///
    /// A completed record replays; an absent record is inserted pending and
    /// the caller proceeds; a pending record left behind by a vanished
    /// holder is handed over as an expired lease, unchanged.
    pub fn begin(&mut self, actor: u128, key: &String, now: u64) -> (r: BeginOutcome)
        requires
            well_formed(old(self)@),
        ensures
            well_formed(final(self)@),
            final(self)@.issues == old(self)@.issues,
            final(self)@.tasks == old(self)@.tasks,
            final(self)@.next_issue_id == old(self)@.next_issue_id,
            final(self)@.next_task_id == old(self)@.next_task_id,
            match r {
                BeginOutcome::Replay(resp) => {
                    &&& final(self)@ == old(self)@
                    &&& completed_with(old(self)@.records, actor, key@, resp@)
                },
                BeginOutcome::Proceed(h) => {
                    &&& h.actor_id == actor
                    &&& h.key@ == key@
                    &&& record_pending(final(self)@.records, actor, key@)
                    &&& if has_record(old(self)@.records, actor, key@) {
                        &&& final(self)@ == old(self)@
                        &&& record_pending(old(self)@.records, actor, key@)
                    } else {
                        final(self)@.records == old(self)@.records.push(
                            RecordView {
                                actor_id: actor,
                                key: key@,
                                created_at: now,
                                state: RecordStateView::Pending,
                            },
                        )
                    }
                },
            },
    {
        match self.find_record(actor, key) {
            Option::Some(i) => {
                proof {
                    lemma_record_index_is(self@.records, actor, key@, i as int);
                }
                match &self.records[i].state {
                    RecordState::Completed(resp) => BeginOutcome::Replay(resp.clone()),
                    RecordState::Pending => BeginOutcome::Proceed(
                        ReservationHandle { actor_id: actor, key: key.clone() },
                    ),
                }
            },
            Option::None => {
                let record = IdempotencyRecord {
                    actor_id: actor,
                    key: key.clone(),
                    created_at: now,
                    state: RecordState::Pending,
                };
                self.records.push(record);
                proof {
                    assert(self@.records =~= old(self)@.records.push(
                        RecordView {
                            actor_id: actor,
                            key: key@,
                            created_at: now,
                            state: RecordStateView::Pending,
                        },
                    ));
                    assert(self@.issues =~= old(self)@.issues);
                    assert(self@.tasks =~= old(self)@.tasks);
                    let last = self@.records.len() - 1;
                    assert(is_record_for(self@.records[last], actor, key@));
                    assert forall|a: int, b: int| 0 <= a < b < self@.records.len() implies !(
                    #[trigger] self@.records[a].actor_id == #[trigger] self@.records[b].actor_id
                        && self@.records[a].key == self@.records[b].key) by {
                        if b < last {
                            assert(old(self)@.records[a].actor_id == self@.records[a].actor_id);
                        } else {
                            assert(!is_record_for(old(self)@.records[a], actor, key@));
                        }
                    };
                    lemma_record_index_is(self@.records, actor, key@, last);
                }
                BeginOutcome::Proceed(ReservationHandle { actor_id: actor, key: key.clone() })
            },
        }
    }

    /// Commits `response` into the reservation `handle` holds: the record
    /// flips from pending to completed with exactly that response, and
    /// nothing else moves.  In the store this write lands atomically with
    /// the caller's other writes; the model orders it last in the same
    /// serialized step.
    pub fn finish(&mut self, handle: ReservationHandle, response: SavedResponse)
        requires
            well_formed(old(self)@),
            record_pending(old(self)@.records, handle.actor_id, handle.key@),
        ensures
            well_formed(final(self)@),
            final(self)@.records == old(self)@.records.update(
                record_index(old(self)@.records, handle.actor_id, handle.key@),
                RecordView {
                    actor_id: handle.actor_id,
                    key: handle.key@,
                    created_at: old(self)@.records[record_index(
                        old(self)@.records,
                        handle.actor_id,
                        handle.key@,
                    )].created_at,
                    state: RecordStateView::Completed(response@),
                },
            ),
            completed_with(final(self)@.records, handle.actor_id, handle.key@, response@),
            final(self)@.issues == old(self)@.issues,
            final(self)@.tasks == old(self)@.tasks,
            final(self)@.next_issue_id == old(self)@.next_issue_id,
            final(self)@.next_task_id == old(self)@.next_task_id,
    {
        let found = self.find_record(handle.actor_id, &handle.key);
        match found {
            Option::Some(i) => {
                proof {
                    lemma_record_index_is(self@.records, handle.actor_id, handle.key@, i as int);
                }
                let slot = &mut self.records[i];
                slot.state = RecordState::Completed(response);
                proof {
                    let idx = i as int;
                    assert(self@.records =~= old(self)@.records.update(
                        idx,
                        RecordView {
                            actor_id: handle.actor_id,
                            key: handle.key@,
                            created_at: old(self)@.records[idx].created_at,
                            state: RecordStateView::Completed(response@),
                        },
                    ));
                    assert(self@.issues =~= old(self)@.issues);
                    assert(self@.tasks =~= old(self)@.tasks);
                    assert forall|a: int, b: int| 0 <= a < b < self@.records.len() implies !(
                    #[trigger] self@.records[a].actor_id == #[trigger] self@.records[b].actor_id
                        && self@.records[a].key == self@.records[b].key) by {
                        assert(!(old(self)@.records[a].actor_id == old(self)@.records[b].actor_id
                            && old(self)@.records[a].key == old(self)@.records[b].key));
                    };
                    lemma_record_index_is(self@.records, handle.actor_id, handle.key@, idx);
                }
            },
            Option::None => {
                // unreachable: the reservation's record exists by contract
                proof {
                    assert(false);
                }
            },
        }
    }
}

} // verus!
