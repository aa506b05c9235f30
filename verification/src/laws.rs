//! The idempotence and delivery laws, proved over the publish transition.
//!
//! Duplicated or retried submissions of one request are N serialized
//! `publish_step`s against the store (the store's row lock on the
//! reservation record orders them); the laws here say what any such run
//! yields: one issue, one task per subscriber in the snapshot, and the same
//! response every time.

use crate::errors::PublishError;
use crate::idempotency::{completed_with, lemma_record_index_is};
use crate::payload::{valid_body, BodyDataView};
use crate::publish::{cached_response, executed_store, publish_step, PublishOutcome};
use crate::response::{success_response_view, ResponseView};
use crate::store::{
    has_record, is_record_for, record_index, task_seq, well_formed, IssueView, RecordStateView,
    RecordView, StoreView, TaskView,
};
use crate::worker::{eligible, eligible_count, skipped_tasks};
use vstd::prelude::*;

verus! {

/// The store and the sequence of responses after several publish steps.
pub ghost struct PublishTrace {
    pub store: StoreView,
    pub responses: Seq<Result<ResponseView, PublishError>>,
}

/// `n` serialized submissions of one publish request, each committed by the
/// store.
pub open spec fn publish_steps(
    s: StoreView,
    actor: Option<u128>,
    key: Seq<char>,
    body: BodyDataView,
    subscribers: Seq<Seq<char>>,
    now: u64,
    n: nat,
) -> PublishTrace
    decreases n,
{
    if n == 0 {
        PublishTrace { store: s, responses: Seq::empty() }
    } else {
        let o = publish_step(s, actor, key, body, subscribers, now, true);
        let rest = publish_steps(o.store, actor, key, body, subscribers, now, (n - 1) as nat);
        PublishTrace { store: rest.store, responses: seq![o.result] + rest.responses }
    }
}

/// Replay law: a publish against a completed idempotency record hands the
/// cached response back and leaves the store untouched — no new issue, no
/// new tasks, no new record — whether or not the store could commit.
pub proof fn lemma_replay(
    s: StoreView,
    actor: u128,
    key: Seq<char>,
    body: BodyDataView,
    subscribers: Seq<Seq<char>>,
    now: u64,
    commit_ok: bool,
    r: ResponseView,
)
    requires
        valid_body(body),
        completed_with(s.records, actor, key, r),
    ensures
        publish_step(s, Option::Some(actor), key, body, subscribers, now, commit_ok)
            == (PublishOutcome { store: s, result: Result::<ResponseView, PublishError>::Ok(r) }),
{
    assert(s.records[record_index(s.records, actor, key)].state is Completed);
    assert(cached_response(s.records, actor, key) == r);
}

/// A store with a completed record for the key is a fixed point: every
/// further submission of the request replays the one cached response.
pub proof fn lemma_replays_fixpoint(
    s: StoreView,
    actor: u128,
    key: Seq<char>,
    body: BodyDataView,
    subscribers: Seq<Seq<char>>,
    now: u64,
    n: nat,
    r: ResponseView,
)
    requires
        valid_body(body),
        completed_with(s.records, actor, key, r),
    ensures
        publish_steps(s, Option::Some(actor), key, body, subscribers, now, n) == (PublishTrace {
            store: s,
            responses: Seq::new(n, |m: int| Result::<ResponseView, PublishError>::Ok(r)),
        }),
    decreases n,
{
    let t = publish_steps(s, Option::Some(actor), key, body, subscribers, now, n);
    if n == 0 {
        assert(t.responses =~= Seq::new(0, |m: int| Result::<ResponseView, PublishError>::Ok(r)));
    } else {
        lemma_replay(s, actor, key, body, subscribers, now, true, r);
        lemma_replays_fixpoint(s, actor, key, body, subscribers, now, (n - 1) as nat, r);
        assert(t.responses =~= Seq::new(n, |m: int| Result::<ResponseView, PublishError>::Ok(r)));
    }
}

/// Collapse law: starting from a store that has never seen the key, any
/// number n >= 1 of serialized submissions of one valid publish request
/// leaves exactly one new issue, exactly one new delivery task per
/// subscriber in the snapshot, one completed record, and n identical
/// success responses.
pub proof fn lemma_duplicate_submissions_collapse(
    s: StoreView,
    actor: u128,
    key: Seq<char>,
    body: BodyDataView,
    subscribers: Seq<Seq<char>>,
    now: u64,
    n: nat,
)
    requires
        well_formed(s),
        valid_body(body),
        !has_record(s.records, actor, key),
        n >= 1,
    ensures
        ({
            let t = publish_steps(s, Option::Some(actor), key, body, subscribers, now, n);
            &&& t.store == executed_store(s, actor, key, body, subscribers, now)
            &&& t.store.issues == s.issues.push(
                IssueView {
                    issue_id: s.next_issue_id,
                    title: body.title,
                    html_body: body.content.html,
                    text_body: body.content.text,
                    published_at: now,
                    created_by: actor,
                },
            )
            &&& t.store.tasks == s.tasks + task_seq(s.next_issue_id, subscribers, s.next_task_id, now)
            &&& t.store.records == s.records.push(
                RecordView {
                    actor_id: actor,
                    key: key,
                    created_at: now,
                    state: RecordStateView::Completed(success_response_view()),
                },
            )
            &&& t.responses.len() == n
            &&& forall|m: int|
                0 <= m < n ==> t.responses[m] == Result::<ResponseView, PublishError>::Ok(
                    success_response_view(),
                )
        }),
{
    let o = publish_step(s, Option::Some(actor), key, body, subscribers, now, true);
    let s1 = o.store;
    assert(s1 == executed_store(s, actor, key, body, subscribers, now));
    let last = s.records.len() as int;
    assert(s1.records == s.records.push(
        RecordView {
            actor_id: actor,
            key: key,
            created_at: now,
            state: RecordStateView::Completed(success_response_view()),
        },
    ));
    assert forall|a: int, b: int| 0 <= a < b < s1.records.len() implies !(#[trigger] s1.records[a].actor_id
        == #[trigger] s1.records[b].actor_id && s1.records[a].key == s1.records[b].key) by {
        if b < last {
            assert(!(s.records[a].actor_id == s.records[b].actor_id && s.records[a].key
                == s.records[b].key));
        } else {
            assert(!is_record_for(s.records[a], actor, key));
        }
    };
    lemma_record_index_is(s1.records, actor, key, last);
    assert(completed_with(s1.records, actor, key, success_response_view()));
    lemma_replays_fixpoint(
        s1,
        actor,
        key,
        body,
        subscribers,
        now,
        (n - 1) as nat,
        success_response_view(),
    );
    let t = publish_steps(s, Option::Some(actor), key, body, subscribers, now, n);
    assert(t.store == s1);
    assert forall|m: int| 0 <= m < n implies t.responses[m] == Result::<ResponseView, PublishError>::Ok(
        success_response_view(),
    ) by {
        if m > 0 {
            assert(t.responses[m] == Seq::new(
                (n - 1) as nat,
                |q: int| Result::<ResponseView, PublishError>::Ok(success_response_view()),
            )[m - 1]);
        }
    };
}

/// Persistence law: a publish step never deletes or rewrites history.
/// Every existing idempotency record keeps its key, owner and creation
/// time; a completed record keeps its cached response forever (it moves
/// `Pending` to `Completed` at most once); and existing issues and queued
/// tasks stay exactly as they were.
pub proof fn lemma_publish_preserves_history(
    s: StoreView,
    actor: Option<u128>,
    key: Seq<char>,
    body: BodyDataView,
    subscribers: Seq<Seq<char>>,
    now: u64,
    commit_ok: bool,
)
    requires
        well_formed(s),
    ensures
        ({
            let s2 = publish_step(s, actor, key, body, subscribers, now, commit_ok).store;
            &&& s2.records.len() >= s.records.len()
            &&& forall|i: int|
                0 <= i < s.records.len() ==> #[trigger] s2.records[i].actor_id
                    == s.records[i].actor_id && s2.records[i].key == s.records[i].key
                    && s2.records[i].created_at == s.records[i].created_at
            &&& forall|i: int|
                0 <= i < s.records.len() && s.records[i].state is Completed ==> #[trigger] s2.records[i]
                    == s.records[i]
            &&& s2.issues.len() >= s.issues.len()
            &&& forall|i: int| 0 <= i < s.issues.len() ==> #[trigger] s2.issues[i] == s.issues[i]
            &&& forall|i: int| 0 <= i < s.tasks.len() ==> #[trigger] s2.tasks[i] == s.tasks[i]
        }),
{
    match actor {
        Option::None => {},
        Option::Some(a) => {
            let executes = valid_body(body) && !(has_record(s.records, a, key) && s.records[
                record_index(s.records, a, key)
            ].state is Completed) && commit_ok;
            if executes && has_record(s.records, a, key) {
                let idx = record_index(s.records, a, key);
                assert(0 <= idx < s.records.len() && is_record_for(s.records[idx], a, key));
                assert(s.records[idx].state !is Completed);
            }
        },
    }
}

/// Every task of a freshly executed publish is immediately eligible.
pub proof fn lemma_all_eligible(tasks: Seq<TaskView>, now: u64)
    requires
        forall|i: int| 0 <= i < tasks.len() ==> eligible(#[trigger] tasks[i], now),
    ensures
        eligible_count(tasks, now) == tasks.len(),
        skipped_tasks(tasks, now) == Seq::<TaskView>::empty(),
    decreases tasks.len(),
{
    if tasks.len() == 0 {
        assert(skipped_tasks(tasks, now) =~= Seq::<TaskView>::empty());
    } else {
        let rest = tasks.drop_first();
        assert forall|i: int| 0 <= i < rest.len() implies eligible(#[trigger] rest[i], now) by {
            assert(rest[i] == tasks[i + 1]);
        };
        lemma_all_eligible(rest, now);
    }
}

/// Drain law: after a first execution of a publish against an empty outbox,
/// the queue holds exactly one task per subscriber in the snapshot, every
/// one of them due: draining it (`drain_queue`) therefore performs exactly
/// that many sends and leaves the queue empty.
pub proof fn lemma_publish_then_drain(
    s: StoreView,
    actor: u128,
    key: Seq<char>,
    body: BodyDataView,
    subscribers: Seq<Seq<char>>,
    now: u64,
)
    requires
        well_formed(s),
        valid_body(body),
        !has_record(s.records, actor, key),
        s.tasks.len() == 0,
    ensures
        ({
            let s2 = publish_step(s, Option::Some(actor), key, body, subscribers, now, true).store;
            &&& s2.tasks.len() == subscribers.len()
            &&& eligible_count(s2.tasks, now) == subscribers.len()
            &&& skipped_tasks(s2.tasks, now) == Seq::<TaskView>::empty()
        }),
{
    let s2 = publish_step(s, Option::Some(actor), key, body, subscribers, now, true).store;
    assert(s2.tasks =~= task_seq(s.next_issue_id, subscribers, s.next_task_id, now));
    assert forall|i: int| 0 <= i < s2.tasks.len() implies eligible(#[trigger] s2.tasks[i], now) by {
        assert(s2.tasks[i] == task_seq(s.next_issue_id, subscribers, s.next_task_id, now)[i]);
    };
    lemma_all_eligible(s2.tasks, now);
}

} // verus!
