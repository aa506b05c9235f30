//! The publish command handler.
//!
//! One call of `publish_newsletter` is one serialized step against the
//! store: it validates the payload, consults the idempotency guard, and on
//! first execution persists the issue, one delivery task per confirmed
//! subscriber and the finalized cached response, all in one atomic
//! transition.  `publish_step` is the mathematical form of that transition;
//! the handler's contract says that it performs exactly `publish_step`.

use crate::errors::PublishError;
use crate::idempotency::{lemma_record_index_is, BeginOutcome};
use crate::payload::{valid_body, BodyData, BodyDataView};
use crate::response::{success_response, success_response_view, ResponseView, SavedResponse};
use crate::store::{
    distinct_seqs, has_record, issue_id_exists, record_index, task_seq, well_formed, IssueView,
    RecordState, RecordStateView, RecordView, Store, StoreView,
};
use vstd::prelude::*;

verus! {

/// The pair a publish step yields: the store after the step and the
/// response or error handed to the caller.
pub ghost struct PublishOutcome {
    pub store: StoreView,
    pub result: Result<ResponseView, PublishError>,
}

/// The cached response of the (completed) record for `(actor, key)`.
pub open spec fn cached_response(records: Seq<RecordView>, actor: u128, key: Seq<char>) -> ResponseView
    recommends
        has_record(records, actor, key),
        records[record_index(records, actor, key)].state is Completed,
{
    records[record_index(records, actor, key)].state->0
}

/// One serialized publish step.
///
/// No actor: rejected before the guard.  Invalid payload: rejected before
/// the guard, so no reservation appears.  A completed record: its cached
/// response is replayed and nothing moves.  Otherwise, if the store cannot
/// commit (`commit_ok` is false) the whole transaction rolls back and
/// nothing moves; if it can, one issue, one task per subscriber and the
/// completed record land together.
///
/// The key, not the payload, is the unit of idempotence: resubmitting a
/// completed key with a different (valid) payload replays the first
/// response and changes nothing, rather than publishing again or raising a
/// conflict.
pub open spec fn publish_step(
    s: StoreView,
    actor: Option<u128>,
    key: Seq<char>,
    body: BodyDataView,
    subscribers: Seq<Seq<char>>,
    now: u64,
    commit_ok: bool,
) -> PublishOutcome {
    match actor {
        Option::None => PublishOutcome { store: s, result: Result::Err(PublishError::Unauthenticated) },
        Option::Some(a) => if !valid_body(body) {
            PublishOutcome { store: s, result: Result::Err(PublishError::InvalidInput) }
        } else if has_record(s.records, a, key) && s.records[record_index(s.records, a, key)].state is Completed {
            PublishOutcome { store: s, result: Result::Ok(cached_response(s.records, a, key)) }
        } else if !commit_ok {
            PublishOutcome { store: s, result: Result::Err(PublishError::StoreFailure) }
        } else {
            PublishOutcome { store: executed_store(s, a, key, body, subscribers, now), result: Result::Ok(success_response_view()) }
        },
    }
}

/// The store after a first (non-replayed) execution of the publish command.
pub open spec fn executed_store(
    s: StoreView,
    actor: u128,
    key: Seq<char>,
    body: BodyDataView,
    subscribers: Seq<Seq<char>>,
    now: u64,
) -> StoreView {
    let resp = success_response_view();
    let completed = RecordStateView::Completed(resp);
    StoreView {
        records: if has_record(s.records, actor, key) {
            // an expired pending reservation is taken over; its creation time stays
            s.records.update(
                record_index(s.records, actor, key),
                RecordView {
                    actor_id: actor,
                    key: key,
                    created_at: s.records[record_index(s.records, actor, key)].created_at,
                    state: completed,
                },
            )
        } else {
            s.records.push(
                RecordView { actor_id: actor, key: key, created_at: now, state: completed },
            )
        },
        issues: s.issues.push(
            IssueView {
                issue_id: s.next_issue_id,
                title: body.title,
                html_body: body.content.html,
                text_body: body.content.text,
                published_at: now,
                created_by: actor,
            },
        ),
        tasks: s.tasks + task_seq(s.next_issue_id, subscribers, s.next_task_id, now),
        next_issue_id: (s.next_issue_id + 1) as u64,
        next_task_id: (s.next_task_id + subscribers.len()) as u64,
    }
}

/// Publishes a newsletter issue idempotently.
///
/// `actor` is the authenticated operator, `key` the client-supplied
/// idempotency key, `subscribers` the confirmed-subscriber snapshot taken
/// for this request, and `commit_ok` whether the store commits the
/// transaction.  The call performs exactly one `publish_step`: N retried or
/// duplicated submissions of the same request serialize into N such steps.
pub fn publish_newsletter(
    store: &mut Store,
    actor: Option<u128>,
    key: &String,
    body: &BodyData,
    subscribers: &Vec<String>,
    now: u64,
    commit_ok: bool,
) -> (r: Result<SavedResponse, PublishError>)
    requires
        well_formed(old(store)@),
        old(store)@.next_issue_id < u64::MAX,
        old(store)@.next_task_id + subscribers@.len() <= u64::MAX,
        distinct_seqs(subscribers.deep_view()),
    ensures
        well_formed(final(store)@),
        ({
            let o = publish_step(
                old(store)@,
                actor,
                key@,
                body@,
                subscribers.deep_view(),
                now,
                commit_ok,
            );
            &&& final(store)@ == o.store
            &&& match r {
                Result::Ok(resp) => o.result matches Result::Ok(rv) && resp@ == rv,
                Result::Err(e) => o.result matches Result::Err(ev) && e == ev,
            }
        }),
        // success is owed exactly when an actor submits a valid payload and
        // either the key already completed or the store commits
        r is Ok <==> actor is Some && valid_body(body@) && (commit_ok || (has_record(
            old(store)@.records,
            actor.unwrap(),
            key@,
        ) && old(store)@.records[record_index(old(store)@.records, actor.unwrap(), key@)].state
            is Completed)),
        r == Result::<SavedResponse, PublishError>::Err(PublishError::Unauthenticated) <==> actor
            is None,
        actor is Some ==> (r == Result::<SavedResponse, PublishError>::Err(
            PublishError::InvalidInput,
        ) <==> !valid_body(body@)),
{
    let actor_id: u128 = match actor {
        Option::Some(a) => a,
        Option::None => {
            return Result::Err(PublishError::Unauthenticated);
        },
    };
    if !body.is_valid() {
        return Result::Err(PublishError::InvalidInput);
    }

    // replay fast path: a completed record is read without any write
    match store.find_record(actor_id, key) {
        Option::Some(i) => {
            proof {
                lemma_record_index_is(store@.records, actor_id, key@, i as int);
            }
            match &store.records[i].state {
                RecordState::Completed(resp) => {
                    return Result::Ok(resp.clone());
                },
                RecordState::Pending => {},
            }
        },
        Option::None => {},
    }

    // the whole transaction below either commits or leaves nothing behind
    if !commit_ok {
        return Result::Err(PublishError::StoreFailure);
    }

    let handle = match store.begin(actor_id, key, now) {
        BeginOutcome::Replay(_) => {
            // unreachable: the record is absent or pending here
            proof {
                assert(false);
            }
            return Result::Err(PublishError::StoreFailure);
        },
        BeginOutcome::Proceed(h) => h,
    };

    let ghost pre = old(store)@;
    let issue_id = store.insert_issue(body, now, actor_id);
    proof {
        assert forall|i: int| 0 <= i < store@.tasks.len() implies #[trigger] store@.tasks[i].issue_id
            != issue_id by {
            assert(issue_id_exists(pre.issues, pre.tasks[i].issue_id));
            let j = choose|j: int|
                0 <= j < pre.issues.len() && #[trigger] pre.issues[j].issue_id == pre.tasks[i].issue_id;
            assert(pre.issues[j].issue_id < pre.next_issue_id);
        };
    }
    store.enqueue_tasks(issue_id, subscribers, now);
    let response = success_response();
    let ghost before_finish = store@;
    store.finish(handle, response.clone());
    proof {
        let target = executed_store(pre, actor_id, key@, body@, subscribers.deep_view(), now);
        if has_record(pre.records, actor_id, key@) {
            lemma_record_index_is(
                before_finish.records,
                actor_id,
                key@,
                record_index(pre.records, actor_id, key@),
            );
            assert(store@.records =~= target.records);
        } else {
            let last = pre.records.len() as int;
            lemma_record_index_is(before_finish.records, actor_id, key@, last);
            assert(store@.records =~= target.records);
        }
        assert(store@ =~= target);
    }
    Result::Ok(response)
}

} // verus!
