//! The delivery worker's store transitions: claiming one eligible outbox
//! task, resolving a send outcome, and draining.
//!
//! The worker loop itself (claim, send over the transport, resolve) runs
//! outside the store; these are the serialized store steps it is built
//! from.  A claimed task is skipped by every other claimant, so each task
//! has at most one active owner; a transient failure re-queues the task
//! with exponential backoff until the retry budget is spent; a permanent
//! failure or a spent budget drops the task so one bad recipient never
//! blocks the queue.

use crate::store::{well_formed, DeliveryTask, Store, TaskView};
use vstd::prelude::*;

verus! {

/// Prior transient failures a task may accumulate before it is dropped.
pub const MAX_RETRIES: u32 = 5;

/// Cap on the backoff exponent.
pub const BACKOFF_CAP: u32 = 16;

/// What one claim attempt yields: a claimed task (a snapshot of the row,
/// now marked claimed), or `Empty` when nothing is eligible.
pub enum ClaimOutcome {
    Claimed(DeliveryTask),
    Empty,
}

/// How a send attempt ended, as the worker classifies it.
#[derive(Clone, Copy, Debug, PartialEq, Eq, Structural)]
pub enum SendOutcome {
    Delivered,
    TransientFailure,
    PermanentFailure,
}

/// The errors the email transport can hand back.
#[derive(Clone, Copy, Debug, PartialEq, Eq, Structural)]
pub enum TransportError {
    /// The bounded send timeout elapsed.
    Timeout,
    /// The transport answered with this status code.
    Status(u16),
    /// The transport rejected the recipient outright.
    InvalidRecipient,
}

/// Classification of a transport result: a timeout or a server-side status
/// is worth retrying; anything else is final.
pub open spec fn classify_spec(res: Result<(), TransportError>) -> SendOutcome {
    match res {
        Result::Ok(()) => SendOutcome::Delivered,
        Result::Err(TransportError::Timeout) => SendOutcome::TransientFailure,
        Result::Err(TransportError::Status(code)) => if code >= 500 {
            SendOutcome::TransientFailure
        } else {
            SendOutcome::PermanentFailure
        },
        Result::Err(TransportError::InvalidRecipient) => SendOutcome::PermanentFailure,
    }
}

/// Classifies a transport result as the worker resolves it.
pub fn classify_send(res: &Result<(), TransportError>) -> (o: SendOutcome)
    ensures
        o == classify_spec(*res),
{
    match res {
        Result::Ok(()) => SendOutcome::Delivered,
        Result::Err(TransportError::Timeout) => SendOutcome::TransientFailure,
        Result::Err(TransportError::Status(code)) => if *code >= 500 {
            SendOutcome::TransientFailure
        } else {
            SendOutcome::PermanentFailure
        },
        Result::Err(TransportError::InvalidRecipient) => SendOutcome::PermanentFailure,
    }
}

/// A task is eligible when no claimant holds it and its next attempt is due.
pub open spec fn eligible(t: TaskView, now: u64) -> bool {
    !t.claimed && t.next_attempt_at <= now
}

/// The index of the first eligible task, if any.
pub open spec fn first_eligible(tasks: Seq<TaskView>, now: u64) -> Option<int>
    decreases tasks.len(),
{
    if tasks.len() == 0 {
        Option::None
    } else if eligible(tasks[0], now) {
        Option::Some(0)
    } else {
        match first_eligible(tasks.drop_first(), now) {
            Option::Some(i) => Option::Some(i + 1),
            Option::None => Option::None,
        }
    }
}

/// How many tasks are eligible.
pub open spec fn eligible_count(tasks: Seq<TaskView>, now: u64) -> nat
    decreases tasks.len(),
{
    if tasks.len() == 0 {
        0
    } else {
        (if eligible(tasks[0], now) {
            1nat
        } else {
            0nat
        }) + eligible_count(tasks.drop_first(), now)
    }
}

/// The tasks a drain leaves behind, in order: those not eligible now.
pub open spec fn skipped_tasks(tasks: Seq<TaskView>, now: u64) -> Seq<TaskView>
    decreases tasks.len(),
{
    if tasks.len() == 0 {
        Seq::empty()
    } else if eligible(tasks[0], now) {
        skipped_tasks(tasks.drop_first(), now)
    } else {
        seq![tasks[0]] + skipped_tasks(tasks.drop_first(), now)
    }
}

/// If nothing before `k` is eligible, the first eligible task is at `k` (or
/// there is none when `k` is the length).
pub proof fn lemma_first_eligible_at(tasks: Seq<TaskView>, now: u64, k: int)
    requires
        0 <= k <= tasks.len(),
        forall|m: int| 0 <= m < k ==> !eligible(#[trigger] tasks[m], now),
        k < tasks.len() ==> eligible(tasks[k], now),
    ensures
        k < tasks.len() ==> first_eligible(tasks, now) == Option::Some(k),
        k == tasks.len() ==> first_eligible(tasks, now) is None,
    decreases k,
{
    if tasks.len() == 0 {
    } else if k == 0 {
    } else {
        assert(!eligible(tasks[0], now));
        let rest = tasks.drop_first();
        assert forall|m: int| 0 <= m < k - 1 implies !eligible(#[trigger] rest[m], now) by {
            assert(rest[m] == tasks[m + 1]);
        };
        if k < tasks.len() {
            assert(rest[k - 1] == tasks[k]);
        }
        lemma_first_eligible_at(rest, now, k - 1);
    }
}

/// A first eligible index is in range and names an eligible task.
pub proof fn lemma_first_eligible_some(tasks: Seq<TaskView>, now: u64)
    ensures
        first_eligible(tasks, now) matches Option::Some(i) ==> 0 <= i < tasks.len() && eligible(
            tasks[i],
            now,
        ),
    decreases tasks.len(),
{
    if tasks.len() == 0 {
    } else if eligible(tasks[0], now) {
    } else {
        let rest = tasks.drop_first();
        lemma_first_eligible_some(rest, now);
        match first_eligible(rest, now) {
            Option::Some(j) => {
                assert(rest[j] == tasks[j + 1]);
            },
            Option::None => {},
        }
    }
}

/// Removing the first eligible task lowers the eligible count by one and
/// leaves the skipped tasks as they were.
pub proof fn lemma_remove_first_eligible(tasks: Seq<TaskView>, now: u64, i: int)
    requires
        first_eligible(tasks, now) == Option::Some(i),
    ensures
        0 <= i < tasks.len(),
        eligible(tasks[i], now),
        eligible_count(tasks.remove(i), now) + 1 == eligible_count(tasks, now),
        skipped_tasks(tasks.remove(i), now) == skipped_tasks(tasks, now),
    decreases tasks.len(),
{
    let rest = tasks.drop_first();
    lemma_first_eligible_some(tasks, now);
    if i == 0 {
        assert(eligible(tasks[0], now));
        assert(tasks.remove(0) =~= rest);
    } else {
        assert(!eligible(tasks[0], now));
        lemma_first_eligible_some(rest, now);
        assert(first_eligible(rest, now) == Option::Some(i - 1));
        lemma_remove_first_eligible(rest, now, i - 1);
        assert(tasks[i] == rest[i - 1]);
        assert(tasks.remove(i).drop_first() =~= rest.remove(i - 1));
        assert(tasks.remove(i)[0] == tasks[0]);
        assert(skipped_tasks(tasks.remove(i), now) == seq![tasks[0]] + skipped_tasks(
            rest.remove(i - 1),
            now,
        ));
    }
}

/// Whether a task with identifier `task_id` exists.
pub open spec fn has_task(tasks: Seq<TaskView>, task_id: u64) -> bool {
    exists|i: int| 0 <= i < tasks.len() && #[trigger] tasks[i].task_id == task_id
}

/// The index of the task with identifier `task_id`; meaningful only when
/// `has_task` holds, and unique under well-formedness.
pub open spec fn task_index(tasks: Seq<TaskView>, task_id: u64) -> int {
    choose|i: int| 0 <= i < tasks.len() && #[trigger] tasks[i].task_id == task_id
}

/// With unique task identifiers, any index holding `task_id` is the index
/// `task_index` denotes.
pub proof fn lemma_task_index_is(tasks: Seq<TaskView>, task_id: u64, i: int)
    requires
        forall|a: int, b: int|
            0 <= a < b < tasks.len() ==> #[trigger] tasks[a].task_id != #[trigger] tasks[b].task_id,
        0 <= i < tasks.len(),
        tasks[i].task_id == task_id,
    ensures
        has_task(tasks, task_id),
        task_index(tasks, task_id) == i,
{
    assert(has_task(tasks, task_id));
    let j = task_index(tasks, task_id);
    if i < j {
        assert(tasks[i].task_id != tasks[j].task_id);
    } else if j < i {
        assert(tasks[j].task_id != tasks[i].task_id);
    }
}

/// `t` with its claim mark set.
pub open spec fn claimed_view(t: TaskView) -> TaskView {
    TaskView {
        task_id: t.task_id,
        issue_id: t.issue_id,
        subscriber_email: t.subscriber_email,
        retry_count: t.retry_count,
        next_attempt_at: t.next_attempt_at,
        claimed: true,
    }
}

/// The backoff exponent: the retry count, capped.
pub open spec fn backoff_shift(retries: u32) -> u32 {
    if retries < BACKOFF_CAP {
        retries
    } else {
        BACKOFF_CAP
    }
}

/// When a task that has now failed `retries` times is due again:
/// exponentially backed off from `now`, saturating at the largest instant.
pub open spec fn next_attempt_time(now: u64, retries: u32) -> u64 {
    let delay = 1u64 << backoff_shift(retries);
    if now + delay > u64::MAX {
        u64::MAX
    } else {
        (now + delay) as u64
    }
}

/// Computes the backed-off next attempt instant.
pub fn compute_next_attempt(now: u64, retries: u32) -> (t: u64)
    ensures
        t == next_attempt_time(now, retries),
{
    let shift: u32 = if retries < BACKOFF_CAP {
        retries
    } else {
        BACKOFF_CAP
    };
    let delay: u64 = 1u64 << shift;
    if now > u64::MAX - delay {
        u64::MAX
    } else {
        now + delay
    }
}

/// The outbox after resolving the claimed task at index `i`: a delivered or
/// permanently failed task leaves, a transient failure past the retry
/// budget leaves as well, and any other transient failure is released with
/// one more retry on the clock and a backed-off due time.
pub open spec fn resolve_effect(tasks: Seq<TaskView>, i: int, outcome: SendOutcome, now: u64) -> Seq<TaskView> {
    match outcome {
        SendOutcome::Delivered => tasks.remove(i),
        SendOutcome::PermanentFailure => tasks.remove(i),
        SendOutcome::TransientFailure => if tasks[i].retry_count >= MAX_RETRIES {
            tasks.remove(i)
        } else {
            tasks.update(
                i,
                TaskView {
                    task_id: tasks[i].task_id,
                    issue_id: tasks[i].issue_id,
                    subscriber_email: tasks[i].subscriber_email,
                    retry_count: (tasks[i].retry_count + 1) as u32,
                    next_attempt_at: next_attempt_time(now, (tasks[i].retry_count + 1) as u32),
                    claimed: false,
                },
            )
        },
    }
}

/// With no eligible task, the eligible count is zero and nothing is
/// skipped away.
pub proof fn lemma_no_eligible(tasks: Seq<TaskView>, now: u64)
    requires
        first_eligible(tasks, now) is None,
    ensures
        eligible_count(tasks, now) == 0,
        skipped_tasks(tasks, now) == tasks,
    decreases tasks.len(),
{
    if tasks.len() == 0 {
        assert(skipped_tasks(tasks, now) =~= tasks);
    } else {
        assert(!eligible(tasks[0], now));
        lemma_no_eligible(tasks.drop_first(), now);
        assert(skipped_tasks(tasks, now) =~= tasks);
    }
}

/// The eligible count never exceeds the queue length.
pub proof fn lemma_eligible_count_le_len(tasks: Seq<TaskView>, now: u64)
    ensures
        eligible_count(tasks, now) <= tasks.len(),
    decreases tasks.len(),
{
    if tasks.len() > 0 {
        lemma_eligible_count_le_len(tasks.drop_first(), now);
    }
}

/// A store whose tasks keep their identifiers, owners and emails stays
/// well formed whatever happened to their retry state or claim marks.
pub proof fn lemma_task_state_change_well_formed(a: crate::store::StoreView, b: crate::store::StoreView)
    requires
        well_formed(a),
        b.records == a.records,
        b.issues == a.issues,
        b.next_issue_id == a.next_issue_id,
        b.next_task_id == a.next_task_id,
        b.tasks.len() == a.tasks.len(),
        forall|m: int|
            0 <= m < a.tasks.len() ==> #[trigger] b.tasks[m].task_id == a.tasks[m].task_id
                && b.tasks[m].issue_id == a.tasks[m].issue_id && b.tasks[m].subscriber_email
                == a.tasks[m].subscriber_email,
    ensures
        well_formed(b),
{
    assert forall|i: int| 0 <= i < b.tasks.len() implies #[trigger] b.tasks[i].task_id < b.next_task_id by {
        assert(a.tasks[i].task_id < a.next_task_id);
    };
    assert forall|i: int, j: int| 0 <= i < j < b.tasks.len() implies #[trigger] b.tasks[i].task_id
        != #[trigger] b.tasks[j].task_id by {
        assert(a.tasks[i].task_id != a.tasks[j].task_id);
    };
    assert forall|i: int| 0 <= i < b.tasks.len() implies crate::store::issue_id_exists(
        b.issues,
        #[trigger] b.tasks[i].issue_id,
    ) by {
        assert(b.tasks[i].task_id == a.tasks[i].task_id);
        assert(crate::store::issue_id_exists(a.issues, a.tasks[i].issue_id));
    };
    assert forall|i: int, j: int| 0 <= i < j < b.tasks.len() implies !(#[trigger] b.tasks[i].issue_id
        == #[trigger] b.tasks[j].issue_id && b.tasks[i].subscriber_email
        == b.tasks[j].subscriber_email) by {
        assert(b.tasks[i].task_id == a.tasks[i].task_id);
        assert(b.tasks[j].task_id == a.tasks[j].task_id);
        assert(!(a.tasks[i].issue_id == a.tasks[j].issue_id && a.tasks[i].subscriber_email
            == a.tasks[j].subscriber_email));
    };
}

/// Dropping one task from a well-formed store keeps it well formed.
pub proof fn lemma_task_removal_well_formed(a: crate::store::StoreView, b: crate::store::StoreView, i: int)
    requires
        well_formed(a),
        0 <= i < a.tasks.len(),
        b.records == a.records,
        b.issues == a.issues,
        b.next_issue_id == a.next_issue_id,
        b.next_task_id == a.next_task_id,
        b.tasks == a.tasks.remove(i),
    ensures
        well_formed(b),
{
    assert forall|m: int| 0 <= m < b.tasks.len() implies #[trigger] b.tasks[m].task_id < b.next_task_id by {
        if m < i {
            assert(b.tasks[m] == a.tasks[m]);
        } else {
            assert(b.tasks[m] == a.tasks[m + 1]);
        }
    };
    assert forall|m: int, k: int| 0 <= m < k < b.tasks.len() implies #[trigger] b.tasks[m].task_id
        != #[trigger] b.tasks[k].task_id by {
        let m2 = if m < i { m } else { m + 1 };
        let k2 = if k < i { k } else { k + 1 };
        assert(b.tasks[m] == a.tasks[m2]);
        assert(b.tasks[k] == a.tasks[k2]);
        assert(a.tasks[m2].task_id != a.tasks[k2].task_id);
    };
    assert forall|m: int| 0 <= m < b.tasks.len() implies crate::store::issue_id_exists(
        b.issues,
        #[trigger] b.tasks[m].issue_id,
    ) by {
        let m2 = if m < i { m } else { m + 1 };
        assert(b.tasks[m] == a.tasks[m2]);
        assert(crate::store::issue_id_exists(a.issues, a.tasks[m2].issue_id));
    };
    assert forall|m: int, k: int| 0 <= m < k < b.tasks.len() implies !(#[trigger] b.tasks[m].issue_id
        == #[trigger] b.tasks[k].issue_id && b.tasks[m].subscriber_email
        == b.tasks[k].subscriber_email) by {
        let m2 = if m < i { m } else { m + 1 };
        let k2 = if k < i { k } else { k + 1 };
        assert(b.tasks[m] == a.tasks[m2]);
        assert(b.tasks[k] == a.tasks[k2]);
        assert(!(a.tasks[m2].issue_id == a.tasks[k2].issue_id && a.tasks[m2].subscriber_email
            == a.tasks[k2].subscriber_email));
    };
}

impl Store {
    /// Atomically claims the first eligible task, if any: the row is marked
    /// claimed so concurrent claimants skip it, and a snapshot of it is
    /// handed out.  `Empty` means the queue is currently drained of
    /// eligible work.
    pub fn claim_one(&mut self, now: u64) -> (r: ClaimOutcome)
        requires
            well_formed(old(self)@),
        ensures
            well_formed(final(self)@),
            final(self)@.records == old(self)@.records,
            final(self)@.issues == old(self)@.issues,
            final(self)@.next_issue_id == old(self)@.next_issue_id,
            final(self)@.next_task_id == old(self)@.next_task_id,
            match r {
                ClaimOutcome::Empty => final(self)@ == old(self)@ && first_eligible(
                    old(self)@.tasks,
                    now,
                ) is None,
                ClaimOutcome::Claimed(t) => first_eligible(old(self)@.tasks, now)
                    matches Option::Some(i) && 0 <= i < old(self)@.tasks.len() && eligible(
                    old(self)@.tasks[i],
                    now,
                ) && t@ == claimed_view(old(self)@.tasks[i])
                    && final(self)@.tasks == old(self)@.tasks.update(i, t@),
            },
    {
        let n = self.tasks.len();
        let mut k: usize = 0;
        while k < n
            invariant
                n == self@.tasks.len(),
                k <= n,
                self == old(self),
                well_formed(self@),
                forall|m: int| 0 <= m < k ==> !eligible(#[trigger] self@.tasks[m], now),
            decreases n - k,
        {
            let due = self.tasks[k].next_attempt_at <= now;
            if !self.tasks[k].claimed && due {
                proof {
                    lemma_first_eligible_at(self@.tasks, now, k as int);
                }
                let slot = &mut self.tasks[k];
                slot.claimed = true;
                let t = self.tasks[k].clone();
                proof {
                    assert(self@.tasks =~= old(self)@.tasks.update(k as int, t@));
                    assert(self@.records =~= old(self)@.records);
                    assert(self@.issues =~= old(self)@.issues);
                    lemma_task_state_change_well_formed(old(self)@, self@);
                }
                return ClaimOutcome::Claimed(t);
            }
            k += 1;
        }
        proof {
            lemma_first_eligible_at(self@.tasks, now, n as int);
        }
        ClaimOutcome::Empty
    }

    /// Resolves the claimed task `task_id` according to `outcome`: delete on
    /// delivery, delete on a permanent failure or a spent retry budget, and
    /// otherwise release the claim with one more retry counted and a
    /// backed-off due time.
    pub fn resolve(&mut self, task_id: u64, outcome: SendOutcome, now: u64)
        requires
            well_formed(old(self)@),
            has_task(old(self)@.tasks, task_id),
            old(self)@.tasks[task_index(old(self)@.tasks, task_id)].claimed,
        ensures
            well_formed(final(self)@),
            final(self)@.records == old(self)@.records,
            final(self)@.issues == old(self)@.issues,
            final(self)@.next_issue_id == old(self)@.next_issue_id,
            final(self)@.next_task_id == old(self)@.next_task_id,
            final(self)@.tasks == resolve_effect(
                old(self)@.tasks,
                task_index(old(self)@.tasks, task_id),
                outcome,
                now,
            ),
    {
        let n = self.tasks.len();
        let mut k: usize = 0;
        while k < n
            invariant
                n == self@.tasks.len(),
                k <= n,
                self == old(self),
                well_formed(self@),
                has_task(self@.tasks, task_id),
                self@.tasks[task_index(self@.tasks, task_id)].claimed,
                forall|m: int| 0 <= m < k ==> #[trigger] self@.tasks[m].task_id != task_id,
            decreases n - k,
        {
            if self.tasks[k].task_id == task_id {
                proof {
                    lemma_task_index_is(self@.tasks, task_id, k as int);
                }
                match outcome {
                    SendOutcome::Delivered | SendOutcome::PermanentFailure => {
                        self.tasks.remove(k);
                        proof {
                            assert(self@.records =~= old(self)@.records);
                            assert(self@.issues =~= old(self)@.issues);
                            assert(self@.tasks =~= old(self)@.tasks.remove(k as int));
                            lemma_task_removal_well_formed(old(self)@, self@, k as int);
                        }
                    },
                    SendOutcome::TransientFailure => {
                        if self.tasks[k].retry_count >= MAX_RETRIES {
                            self.tasks.remove(k);
                            proof {
                                assert(self@.records =~= old(self)@.records);
                                assert(self@.issues =~= old(self)@.issues);
                                assert(self@.tasks =~= old(self)@.tasks.remove(k as int));
                                lemma_task_removal_well_formed(old(self)@, self@, k as int);
                            }
                        } else {
                            let rc = self.tasks[k].retry_count + 1;
                            let due = compute_next_attempt(now, rc);
                            let slot = &mut self.tasks[k];
                            slot.retry_count = rc;
                            slot.next_attempt_at = due;
                            slot.claimed = false;
                            proof {
                                assert(self@.tasks =~= resolve_effect(
                                    old(self)@.tasks,
                                    k as int,
                                    outcome,
                                    now,
                                ));
                                assert(self@.records =~= old(self)@.records);
                                assert(self@.issues =~= old(self)@.issues);
                                lemma_task_state_change_well_formed(old(self)@, self@);
                            }
                        }
                    },
                }
                return ;
            }
            k += 1;
        }
        proof {
            // unreachable: the claimed task exists by contract
            let i = task_index(self@.tasks, task_id);
            assert(self@.tasks[i].task_id == task_id);
            assert(false);
        }
    }

    /// Drains the queue as a transport that always succeeds would: claims
    /// and deletes eligible tasks until `Empty`, and reports how many sends
    /// that took.  Tasks claimed elsewhere or not yet due are skipped and
    /// left in place.
    pub fn drain_queue(&mut self, now: u64) -> (sent: usize)
        requires
            well_formed(old(self)@),
        ensures
            well_formed(final(self)@),
            final(self)@.records == old(self)@.records,
            final(self)@.issues == old(self)@.issues,
            final(self)@.next_issue_id == old(self)@.next_issue_id,
            final(self)@.next_task_id == old(self)@.next_task_id,
            sent == eligible_count(old(self)@.tasks, now),
            final(self)@.tasks == skipped_tasks(old(self)@.tasks, now),
            first_eligible(final(self)@.tasks, now) is None,
    {
        let ghost limit = self@.tasks.len();
        let n = self.tasks.len();
        proof {
            lemma_eligible_count_le_len(self@.tasks, now);
        }
        let mut sent: usize = 0;
        loop
            invariant
                well_formed(self@),
                self@.records == old(self)@.records,
                self@.issues == old(self)@.issues,
                self@.next_issue_id == old(self)@.next_issue_id,
                self@.next_task_id == old(self)@.next_task_id,
                sent + eligible_count(self@.tasks, now) == eligible_count(old(self)@.tasks, now),
                skipped_tasks(self@.tasks, now) == skipped_tasks(old(self)@.tasks, now),
                eligible_count(old(self)@.tasks, now) <= limit,
                limit == n,
            decreases self@.tasks.len(),
        {
            let ghost pre = self@;
            match self.claim_one(now) {
                ClaimOutcome::Empty => {
                    proof {
                        lemma_no_eligible(self@.tasks, now);
                    }
                    return sent;
                },
                ClaimOutcome::Claimed(t) => {
                    let ghost i = first_eligible(pre.tasks, now)->0;
                    proof {
                        lemma_remove_first_eligible(pre.tasks, now, i);
                        lemma_task_index_is(self@.tasks, t@.task_id, i);
                        assert(self@.tasks[i].claimed);
                    }
                    self.resolve(t.task_id, SendOutcome::Delivered, now);
                    proof {
                        assert(self@.tasks =~= pre.tasks.remove(i));
                    }
                    sent += 1;
                },
            }
        }
    }
}

} // verus!
