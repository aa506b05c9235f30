//! The durable store, modelled as an explicit in-memory value.
//!
//! The store holds the idempotency records, the newsletter issues and the
//! outbox of delivery tasks.  Every mutation of the store happens through a
//! method with a contract that pins the new value down exactly; the
//! well-formedness predicate collects the invariants that every such method
//! preserves: unique idempotency keys, unique issue and task identifiers,
//! every task owned by an existing issue, and at most one task per
//! (issue, subscriber) pair.

use crate::response::{ResponseView, SavedResponse};
use vstd::prelude::*;

verus! {

/// The reservation state of an idempotency record: `Pending` while the
/// command executes, `Completed` with the cached response once it has
/// committed.  A record transitions `Pending` to `Completed` exactly once
/// and is never deleted.
pub enum RecordState {
    Pending,
    Completed(SavedResponse),
}

/// Mathematical image of `RecordState`.
pub ghost enum RecordStateView {
    Pending,
    Completed(ResponseView),
}

impl View for RecordState {
    type V = RecordStateView;

    open spec fn view(&self) -> RecordStateView {
        match self {
            RecordState::Pending => RecordStateView::Pending,
            RecordState::Completed(r) => RecordStateView::Completed(r@),
        }
    }
}

/// One idempotency record, keyed by (actor, key).
pub struct IdempotencyRecord {
    pub actor_id: u128,
    pub key: String,
    pub created_at: u64,
    pub state: RecordState,
}

/// Mathematical image of `IdempotencyRecord`.
pub ghost struct RecordView {
    pub actor_id: u128,
    pub key: Seq<char>,
    pub created_at: u64,
    pub state: RecordStateView,
}

impl View for IdempotencyRecord {
    type V = RecordView;

    open spec fn view(&self) -> RecordView {
        RecordView {
            actor_id: self.actor_id,
            key: self.key@,
            created_at: self.created_at,
            state: self.state@,
        }
    }
}

/// A persisted newsletter issue.  Immutable after creation.
pub struct NewsletterIssue {
    pub issue_id: u64,
    pub title: String,
    pub html_body: String,
    pub text_body: String,
    pub published_at: u64,
    pub created_by: u128,
}

/// Mathematical image of `NewsletterIssue`.
pub ghost struct IssueView {
    pub issue_id: u64,
    pub title: Seq<char>,
    pub html_body: Seq<char>,
    pub text_body: Seq<char>,
    pub published_at: u64,
    pub created_by: u128,
}

impl View for NewsletterIssue {
    type V = IssueView;

    open spec fn view(&self) -> IssueView {
        IssueView {
            issue_id: self.issue_id,
            title: self.title@,
            html_body: self.html_body@,
            text_body: self.text_body@,
            published_at: self.published_at,
            created_by: self.created_by,
        }
    }
}

/// One outbox entry: a pending send to a single subscriber.  The email is a
/// snapshot taken at enqueue time, not a live reference.  Deleted on a
/// terminal outcome; claimed while a worker holds it.
pub struct DeliveryTask {
    pub task_id: u64,
    pub issue_id: u64,
    pub subscriber_email: String,
    pub retry_count: u32,
    pub next_attempt_at: u64,
    pub claimed: bool,
}

/// Mathematical image of `DeliveryTask`.
pub ghost struct TaskView {
    pub task_id: u64,
    pub issue_id: u64,
    pub subscriber_email: Seq<char>,
    pub retry_count: u32,
    pub next_attempt_at: u64,
    pub claimed: bool,
}

impl View for DeliveryTask {
    type V = TaskView;

    open spec fn view(&self) -> TaskView {
        TaskView {
            task_id: self.task_id,
            issue_id: self.issue_id,
            subscriber_email: self.subscriber_email@,
            retry_count: self.retry_count,
            next_attempt_at: self.next_attempt_at,
            claimed: self.claimed,
        }
    }
}

impl Clone for DeliveryTask {
    /// A clone carries the same identifier, owner, email and retry state.
    fn clone(&self) -> (r: Self)
        ensures
            r@ == self@,
    {
        DeliveryTask {
            task_id: self.task_id,
            issue_id: self.issue_id,
            subscriber_email: self.subscriber_email.clone(),
            retry_count: self.retry_count,
            next_attempt_at: self.next_attempt_at,
            claimed: self.claimed,
        }
    }
}

/// The durable store: idempotency records, issues, the outbox, and the
/// identifier counters.
pub struct Store {
    pub records: Vec<IdempotencyRecord>,
    pub issues: Vec<NewsletterIssue>,
    pub tasks: Vec<DeliveryTask>,
    pub next_issue_id: u64,
    pub next_task_id: u64,
}

/// Mathematical image of `Store`.
#[verifier::ext_equal]
pub ghost struct StoreView {
    pub records: Seq<RecordView>,
    pub issues: Seq<IssueView>,
    pub tasks: Seq<TaskView>,
    pub next_issue_id: u64,
    pub next_task_id: u64,
}

impl View for Store {
    type V = StoreView;

    open spec fn view(&self) -> StoreView {
        StoreView {
            records: Seq::new(self.records@.len(), |i: int| self.records@[i]@),
            issues: Seq::new(self.issues@.len(), |i: int| self.issues@[i]@),
            tasks: Seq::new(self.tasks@.len(), |i: int| self.tasks@[i]@),
            next_issue_id: self.next_issue_id,
            next_task_id: self.next_task_id,
        }
    }
}

/// Whether record `r` is the record for `(actor, key)`.
pub open spec fn is_record_for(r: RecordView, actor: u128, key: Seq<char>) -> bool {
    r.actor_id == actor && r.key == key
}

/// Whether some record for `(actor, key)` exists.
pub open spec fn has_record(records: Seq<RecordView>, actor: u128, key: Seq<char>) -> bool {
    exists|i: int| 0 <= i < records.len() && is_record_for(#[trigger] records[i], actor, key)
}

/// The index of the record for `(actor, key)`; meaningful only when
/// `has_record` holds, and unique under well-formedness.
pub open spec fn record_index(records: Seq<RecordView>, actor: u128, key: Seq<char>) -> int {
    choose|i: int| 0 <= i < records.len() && is_record_for(#[trigger] records[i], actor, key)
}

/// Whether an issue with identifier `id` exists.
pub open spec fn issue_id_exists(issues: Seq<IssueView>, id: u64) -> bool {
    exists|i: int| 0 <= i < issues.len() && #[trigger] issues[i].issue_id == id
}

/// Pairwise-distinct sequences of characters (subscriber emails).
pub open spec fn distinct_seqs(xs: Seq<Seq<char>>) -> bool {
    forall|i: int, j: int| 0 <= i < j < xs.len() ==> #[trigger] xs[i] != #[trigger] xs[j]
}

/// The invariants of the store.
pub open spec fn well_formed(s: StoreView) -> bool {
    // at most one record per (actor, key)
    &&& forall|i: int, j: int|
        0 <= i < j < s.records.len() ==> !(#[trigger] s.records[i].actor_id == #[trigger] s.records[j].actor_id
            && s.records[i].key == s.records[j].key)
    // issue identifiers are below the counter and unique
    &&& forall|i: int| 0 <= i < s.issues.len() ==> #[trigger] s.issues[i].issue_id < s.next_issue_id
    &&& forall|i: int, j: int|
        0 <= i < j < s.issues.len() ==> #[trigger] s.issues[i].issue_id != #[trigger] s.issues[j].issue_id
    // task identifiers are below the counter and unique
    &&& forall|i: int| 0 <= i < s.tasks.len() ==> #[trigger] s.tasks[i].task_id < s.next_task_id
    &&& forall|i: int, j: int|
        0 <= i < j < s.tasks.len() ==> #[trigger] s.tasks[i].task_id != #[trigger] s.tasks[j].task_id
    // a task's owning issue exists
    &&& forall|i: int| 0 <= i < s.tasks.len() ==> issue_id_exists(s.issues, #[trigger] s.tasks[i].issue_id)
    // at most one task per (issue, subscriber) pair
    &&& forall|i: int, j: int|
        0 <= i < j < s.tasks.len() ==> !(#[trigger] s.tasks[i].issue_id == #[trigger] s.tasks[j].issue_id
            && s.tasks[i].subscriber_email == s.tasks[j].subscriber_email)
}

/// The tasks that enqueueing `emails` for issue `issue_id` appends, with
/// identifiers counting up from `first_task_id` and a first attempt due at
/// `now`.
pub open spec fn task_seq(issue_id: u64, emails: Seq<Seq<char>>, first_task_id: u64, now: u64) -> Seq<TaskView> {
    Seq::new(
        emails.len(),
        |i: int|
            TaskView {
                task_id: (first_task_id + i) as u64,
                issue_id: issue_id,
                subscriber_email: emails[i],
                retry_count: 0,
                next_attempt_at: now,
                claimed: false,
            },
    )
}

/// The empty store.
pub open spec fn empty_store() -> StoreView {
    StoreView {
        records: Seq::empty(),
        issues: Seq::empty(),
        tasks: Seq::empty(),
        next_issue_id: 0,
        next_task_id: 0,
    }
}

impl Store {
    /// A fresh store with no records, issues or tasks.
    pub fn new() -> (s: Store)
        ensures
            s@ == empty_store(),
            well_formed(s@),
    {
        let s = Store {
            records: Vec::new(),
            issues: Vec::new(),
            tasks: Vec::new(),
            next_issue_id: 0,
            next_task_id: 0,
        };
        proof {
            assert(s@.records =~= Seq::<RecordView>::empty());
            assert(s@.issues =~= Seq::<IssueView>::empty());
            assert(s@.tasks =~= Seq::<TaskView>::empty());
            assert(s@ =~= empty_store());
        }
        s
    }

    /// Looks the record for `(actor, key)` up; `None` exactly when no such
    /// record exists.
    pub fn find_record(&self, actor: u128, key: &String) -> (r: Option<usize>)
        ensures
            match r {
                Option::Some(i) => i < self@.records.len() && is_record_for(
                    self@.records[i as int],
                    actor,
                    key@,
                ),
                Option::None => !has_record(self@.records, actor, key@),
            },
    {
        let n = self.records.len();
        let mut k: usize = 0;
        while k < n
            invariant
                n == self@.records.len(),
                k <= n,
                forall|i: int| 0 <= i < k ==> !is_record_for(#[trigger] self@.records[i], actor, key@),
            decreases n - k,
        {
            let rec = &self.records[k];
            if rec.actor_id == actor && rec.key == *key {
                return Option::Some(k);
            }
            k += 1;
        }
        Option::None
    }

    /// Persists a new issue built from the payload; returns its identifier.
    ///
    /// Relies on the caller for identifier headroom; everything but the
    /// issue list and its counter is untouched.
    pub fn insert_issue(&mut self, body: &crate::payload::BodyData, published_at: u64, created_by: u128) -> (id: u64)
        requires
            well_formed(old(self)@),
            old(self)@.next_issue_id < u64::MAX,
        ensures
            id == old(self)@.next_issue_id,
            final(self)@.issues == old(self)@.issues.push(
                IssueView {
                    issue_id: old(self)@.next_issue_id,
                    title: body@.title,
                    html_body: body@.content.html,
                    text_body: body@.content.text,
                    published_at: published_at,
                    created_by: created_by,
                },
            ),
            final(self)@.next_issue_id == old(self)@.next_issue_id + 1,
            final(self)@.records == old(self)@.records,
            final(self)@.tasks == old(self)@.tasks,
            final(self)@.next_task_id == old(self)@.next_task_id,
            well_formed(final(self)@),
            issue_id_exists(final(self)@.issues, id),
    {
        let id = self.next_issue_id;
        let issue = NewsletterIssue {
            issue_id: id,
            title: body.title.clone(),
            html_body: body.content.html.clone(),
            text_body: body.content.text.clone(),
            published_at,
            created_by,
        };
        self.issues.push(issue);
        self.next_issue_id = id + 1;
        proof {
            assert(self@.issues =~= old(self)@.issues.push(
                IssueView {
                    issue_id: id,
                    title: body@.title,
                    html_body: body@.content.html,
                    text_body: body@.content.text,
                    published_at: published_at,
                    created_by: created_by,
                },
            ));
            assert(self@.records =~= old(self)@.records);
            assert(self@.tasks =~= old(self)@.tasks);
            assert(self@.issues[self@.issues.len() - 1].issue_id == id);
            assert forall|i: int| 0 <= i < self@.issues.len() implies #[trigger] self@.issues[i].issue_id
                < self@.next_issue_id by {
                if i < old(self)@.issues.len() {
                    assert(old(self)@.issues[i].issue_id < old(self)@.next_issue_id);
                }
            };
            assert forall|i: int, j: int| 0 <= i < j < self@.issues.len() implies #[trigger] self@.issues[i].issue_id
                != #[trigger] self@.issues[j].issue_id by {
                if j < old(self)@.issues.len() {
                    assert(old(self)@.issues[i].issue_id != old(self)@.issues[j].issue_id);
                } else {
                    assert(old(self)@.issues[i].issue_id < old(self)@.next_issue_id);
                }
            };
            assert forall|i: int| 0 <= i < self@.tasks.len() implies issue_id_exists(
                self@.issues,
                #[trigger] self@.tasks[i].issue_id,
            ) by {
                assert(issue_id_exists(old(self)@.issues, old(self)@.tasks[i].issue_id));
                let j = choose|j: int|
                    0 <= j < old(self)@.issues.len() && #[trigger] old(self)@.issues[j].issue_id
                        == old(self)@.tasks[i].issue_id;
                assert(self@.issues[j].issue_id == self@.tasks[i].issue_id);
            };
        }
        id
    }

    /// Enqueues one delivery task per subscriber email for issue `issue_id`,
    /// all immediately eligible.  The caller guarantees identifier headroom,
    /// a fresh issue (no task for it yet) and a duplicate-free email
    /// snapshot; everything but the outbox and its counter is untouched.
    pub fn enqueue_tasks(&mut self, issue_id: u64, subscribers: &Vec<String>, now: u64)
        requires
            well_formed(old(self)@),
            old(self)@.next_task_id + subscribers@.len() <= u64::MAX,
            issue_id_exists(old(self)@.issues, issue_id),
            forall|i: int| 0 <= i < old(self)@.tasks.len() ==> #[trigger] old(self)@.tasks[i].issue_id != issue_id,
            distinct_seqs(subscribers.deep_view()),
        ensures
            final(self)@.tasks == old(self)@.tasks + task_seq(
                issue_id,
                subscribers.deep_view(),
                old(self)@.next_task_id,
                now,
            ),
            final(self)@.next_task_id == old(self)@.next_task_id + subscribers@.len(),
            final(self)@.records == old(self)@.records,
            final(self)@.issues == old(self)@.issues,
            final(self)@.next_issue_id == old(self)@.next_issue_id,
            well_formed(final(self)@),
    {
        let ghost first: u64 = self.next_task_id;
        let ghost emails: Seq<Seq<char>> = subscribers.deep_view();
        let ghost base: int = self.tasks@.len() as int;
        let n = subscribers.len();
        let mut k: usize = 0;
        while k < n
            invariant
                n == subscribers@.len(),
                emails == subscribers.deep_view(),
                k <= n,
                first + n <= u64::MAX,
                self@.next_task_id == first + k,
                base == old(self)@.tasks.len(),
                self@.tasks.len() == base + k,
                forall|m: int| 0 <= m < base ==> self@.tasks[m] == old(self)@.tasks[m],
                forall|m: int| 0 <= m < k ==> #[trigger] self@.tasks[base + m] == task_seq(
                    issue_id,
                    emails,
                    first,
                    now,
                )[m],
                self@.records == old(self)@.records,
                self@.issues == old(self)@.issues,
                self@.next_issue_id == old(self)@.next_issue_id,
            decreases n - k,
        {
            let ghost prev = self@.tasks;
            let ghost prev_vec = self.tasks@;
            let tid = self.next_task_id;
            let task = DeliveryTask {
                task_id: tid,
                issue_id,
                subscriber_email: subscribers[k].clone(),
                retry_count: 0,
                next_attempt_at: now,
                claimed: false,
            };
            self.tasks.push(task);
            self.next_task_id = tid + 1;
            k += 1;
            proof {
                assert(self@.records =~= old(self)@.records);
                assert(self@.issues =~= old(self)@.issues);
                let km = k - 1;
                assert(self@.tasks[base + km] == task@);
                assert(task@ == task_seq(issue_id, emails, first, now)[km]);
                assert forall|m: int| 0 <= m < base + km implies #[trigger] self@.tasks[m] == prev[m] by {
                    assert(self.tasks@[m] == prev_vec[m]);
                    assert(prev[m] == prev_vec[m]@);
                };
            }
        }
        proof {
            let fresh = task_seq(issue_id, emails, first, now);
            let target = old(self)@.tasks + fresh;
            assert forall|m: int| 0 <= m < self@.tasks.len() implies #[trigger] self@.tasks[m] == target[m] by {
                if base <= m {
                    let m2 = m - base;
                    assert(self@.tasks[base + m2] == fresh[m2]);
                }
            };
            assert(self@.tasks =~= target);
            self.lemma_enqueue_well_formed(old(self)@, issue_id, emails, first, now);
        }
    }

    /// The enqueue loop's final state is well formed: the fresh tasks carry
    /// identifiers at and above the old counter, distinct emails and an
    /// existing owner, so every invariant carries over.
    proof fn lemma_enqueue_well_formed(
        &self,
        pre: StoreView,
        issue_id: u64,
        emails: Seq<Seq<char>>,
        first: u64,
        now: u64,
    )
        requires
            well_formed(pre),
            first == pre.next_task_id,
            first + emails.len() <= u64::MAX,
            issue_id_exists(pre.issues, issue_id),
            forall|i: int| 0 <= i < pre.tasks.len() ==> #[trigger] pre.tasks[i].issue_id != issue_id,
            distinct_seqs(emails),
            self@.tasks == pre.tasks + task_seq(issue_id, emails, first, now),
            self@.next_task_id == first + emails.len(),
            self@.records == pre.records,
            self@.issues == pre.issues,
            self@.next_issue_id == pre.next_issue_id,
        ensures
            well_formed(self@),
    {
        let s = self@;
        let fresh = task_seq(issue_id, emails, first, now);
        assert forall|i: int| 0 <= i < s.tasks.len() implies #[trigger] s.tasks[i].task_id < s.next_task_id by {
            if i < pre.tasks.len() {
                assert(pre.tasks[i].task_id < pre.next_task_id);
            } else {
                assert(s.tasks[i] == fresh[i - pre.tasks.len()]);
            }
        };
        assert forall|i: int, j: int| 0 <= i < j < s.tasks.len() implies #[trigger] s.tasks[i].task_id
            != #[trigger] s.tasks[j].task_id by {
            if j < pre.tasks.len() {
                assert(pre.tasks[i].task_id != pre.tasks[j].task_id);
            } else if i < pre.tasks.len() {
                assert(pre.tasks[i].task_id < pre.next_task_id);
                assert(s.tasks[j] == fresh[j - pre.tasks.len()]);
            } else {
                assert(s.tasks[i] == fresh[i - pre.tasks.len()]);
                assert(s.tasks[j] == fresh[j - pre.tasks.len()]);
            }
        };
        assert forall|i: int| 0 <= i < s.tasks.len() implies issue_id_exists(
            s.issues,
            #[trigger] s.tasks[i].issue_id,
        ) by {
            if i < pre.tasks.len() {
                assert(issue_id_exists(pre.issues, pre.tasks[i].issue_id));
            } else {
                assert(s.tasks[i] == fresh[i - pre.tasks.len()]);
                assert(s.tasks[i].issue_id == issue_id);
            }
        };
        assert forall|i: int, j: int| 0 <= i < j < s.tasks.len() implies !(#[trigger] s.tasks[i].issue_id
            == #[trigger] s.tasks[j].issue_id && s.tasks[i].subscriber_email == s.tasks[j].subscriber_email) by {
            if j < pre.tasks.len() {
                assert(!(pre.tasks[i].issue_id == pre.tasks[j].issue_id && pre.tasks[i].subscriber_email
                    == pre.tasks[j].subscriber_email));
            } else if i < pre.tasks.len() {
                assert(pre.tasks[i].issue_id != issue_id);
                assert(s.tasks[j] == fresh[j - pre.tasks.len()]);
            } else {
                let a = i - pre.tasks.len();
                let b = j - pre.tasks.len();
                assert(s.tasks[i] == fresh[a]);
                assert(s.tasks[j] == fresh[b]);
                assert(emails[a] != emails[b]);
            }
        };
    }
}

} // verus!
