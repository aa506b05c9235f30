//! The subscriber directory: the read-only confirmed-subscriber source the
//! publish path snapshots, and the token-driven confirmation flow.

use crate::errors::ConfirmError;
use crate::store::distinct_seqs;
use vstd::prelude::*;

verus! {

/// One subscriber row: identity, email and confirmation status.
pub struct Subscription {
    pub subscriber_id: u128,
    pub email: String,
    pub confirmed: bool,
}

/// One confirmation token, pointing at its subscriber.
pub struct SubscriptionToken {
    pub token: String,
    pub subscriber_id: u128,
}

/// One operator account.
pub struct User {
    pub user_id: u128,
    pub username: String,
}

/// The directory the store keeps subscribers, tokens and operators in.
pub struct Directory {
    pub subscriptions: Vec<Subscription>,
    pub tokens: Vec<SubscriptionToken>,
    pub users: Vec<User>,
}

/// The query parameters of a confirmation request.
pub struct Parameters {
    pub subscription_token: String,
}

/// Directory invariants: distinct subscriber identities and emails,
/// distinct token strings, distinct operator identities.
pub open spec fn directory_well_formed(d: &Directory) -> bool {
    &&& forall|i: int, j: int|
        0 <= i < j < d.subscriptions@.len() ==> #[trigger] d.subscriptions@[i].subscriber_id
            != #[trigger] d.subscriptions@[j].subscriber_id
    &&& forall|i: int, j: int|
        0 <= i < j < d.subscriptions@.len() ==> #[trigger] d.subscriptions@[i].email@
            != #[trigger] d.subscriptions@[j].email@
    &&& forall|i: int, j: int|
        0 <= i < j < d.tokens@.len() ==> #[trigger] d.tokens@[i].token@
            != #[trigger] d.tokens@[j].token@
    &&& forall|i: int, j: int|
        0 <= i < j < d.users@.len() ==> #[trigger] d.users@[i].user_id
            != #[trigger] d.users@[j].user_id
}

/// The emails of the confirmed subscriptions, in order.
pub open spec fn confirmed_emails(subs: Seq<Subscription>) -> Seq<Seq<char>>
    decreases subs.len(),
{
    if subs.len() == 0 {
        Seq::empty()
    } else {
        let rest = confirmed_emails(subs.drop_last());
        if subs.last().confirmed {
            rest.push(subs.last().email@)
        } else {
            rest
        }
    }
}

/// The subscription a position of the confirmed-email snapshot comes from.
pub open spec fn confirmed_source(subs: Seq<Subscription>, m: int) -> int
    decreases subs.len(),
{
    if subs.len() == 0 {
        0
    } else if m < confirmed_emails(subs.drop_last()).len() {
        confirmed_source(subs.drop_last(), m)
    } else {
        subs.len() - 1
    }
}

/// `confirmed_source` names a confirmed subscription carrying the email at
/// that position of the snapshot.
pub proof fn lemma_confirmed_source(subs: Seq<Subscription>, m: int)
    requires
        0 <= m < confirmed_emails(subs).len(),
    ensures
        0 <= confirmed_source(subs, m) < subs.len(),
        subs[confirmed_source(subs, m)].confirmed,
        subs[confirmed_source(subs, m)].email@ == confirmed_emails(subs)[m],
    decreases subs.len(),
{
    let p = subs.drop_last();
    if m < confirmed_emails(p).len() {
        lemma_confirmed_source(p, m);
        assert(p[confirmed_source(p, m)] == subs[confirmed_source(p, m)]);
    }
}

/// Distinct positions of the snapshot come from distinct subscriptions.
pub proof fn lemma_confirmed_source_increasing(subs: Seq<Subscription>, a: int, b: int)
    requires
        0 <= a < b < confirmed_emails(subs).len(),
    ensures
        confirmed_source(subs, a) < confirmed_source(subs, b),
    decreases subs.len(),
{
    let p = subs.drop_last();
    if b < confirmed_emails(p).len() {
        lemma_confirmed_source_increasing(p, a, b);
    } else {
        lemma_confirmed_source(subs, a);
        assert(a < confirmed_emails(p).len());
        assert(confirmed_source(subs, a) == confirmed_source(p, a));
        lemma_confirmed_source(p, a);
    }
}

/// With distinct subscription emails the confirmed snapshot is
/// duplicate-free.
pub proof fn lemma_confirmed_emails_distinct(subs: Seq<Subscription>)
    requires
        forall|i: int, j: int|
            0 <= i < j < subs.len() ==> #[trigger] subs[i].email@ != #[trigger] subs[j].email@,
    ensures
        distinct_seqs(confirmed_emails(subs)),
{
    let ce = confirmed_emails(subs);
    assert forall|a: int, b: int| 0 <= a < b < ce.len() implies #[trigger] ce[a]
        != #[trigger] ce[b] by {
        lemma_confirmed_source(subs, a);
        lemma_confirmed_source(subs, b);
        lemma_confirmed_source_increasing(subs, a, b);
        assert(subs[confirmed_source(subs, a)].email@ != subs[confirmed_source(subs, b)].email@);
    };
}

/// The subscriber the first token equal to `token` points at, if any.
pub open spec fn token_lookup(tokens: Seq<SubscriptionToken>, token: Seq<char>) -> Option<u128>
    decreases tokens.len(),
{
    if tokens.len() == 0 {
        Option::None
    } else if tokens[0].token@ == token {
        Option::Some(tokens[0].subscriber_id)
    } else {
        token_lookup(tokens.drop_first(), token)
    }
}

/// If nothing before `k` matches, the lookup is decided at `k` (or is
/// `None` when `k` is the length).
pub proof fn lemma_token_lookup_at(tokens: Seq<SubscriptionToken>, token: Seq<char>, k: int)
    requires
        0 <= k <= tokens.len(),
        forall|m: int| 0 <= m < k ==> #[trigger] tokens[m].token@ != token,
        k < tokens.len() ==> tokens[k].token@ == token,
    ensures
        k < tokens.len() ==> token_lookup(tokens, token) == Option::Some(tokens[k].subscriber_id),
        k == tokens.len() ==> token_lookup(tokens, token) is None,
    decreases k,
{
    if tokens.len() == 0 {
    } else if k == 0 {
    } else {
        let rest = tokens.drop_first();
        assert forall|m: int| 0 <= m < k - 1 implies #[trigger] rest[m].token@ != token by {
            assert(rest[m] == tokens[m + 1]);
        };
        if k < tokens.len() {
            assert(rest[k - 1] == tokens[k]);
        }
        lemma_token_lookup_at(rest, token, k - 1);
    }
}

/// The username of the first user with identity `user_id`, if any.
pub open spec fn username_lookup(users: Seq<User>, user_id: u128) -> Option<Seq<char>>
    decreases users.len(),
{
    if users.len() == 0 {
        Option::None
    } else if users[0].user_id == user_id {
        Option::Some(users[0].username@)
    } else {
        username_lookup(users.drop_first(), user_id)
    }
}

/// If nothing before `k` matches, the username lookup is decided at `k`.
pub proof fn lemma_username_lookup_at(users: Seq<User>, user_id: u128, k: int)
    requires
        0 <= k <= users.len(),
        forall|m: int| 0 <= m < k ==> #[trigger] users[m].user_id != user_id,
        k < users.len() ==> users[k].user_id == user_id,
    ensures
        k < users.len() ==> username_lookup(users, user_id) == Option::Some(users[k].username@),
        k == users.len() ==> username_lookup(users, user_id) is None,
    decreases k,
{
    if users.len() == 0 {
    } else if k == 0 {
    } else {
        let rest = users.drop_first();
        assert forall|m: int| 0 <= m < k - 1 implies #[trigger] rest[m].user_id != user_id by {
            assert(rest[m] == users[m + 1]);
        };
        if k < users.len() {
            assert(rest[k - 1] == users[k]);
        }
        lemma_username_lookup_at(rest, user_id, k - 1);
    }
}

/// The snapshot the publish path works from: the emails of the
/// subscriptions confirmed at this moment, in order, duplicate-free when
/// the directory is well formed.
pub fn get_confirmed_subscribers(directory: &Directory) -> (emails: Vec<String>)
    ensures
        emails.deep_view() == confirmed_emails(directory.subscriptions@),
        directory_well_formed(directory) ==> distinct_seqs(emails.deep_view()),
{
    let mut out: Vec<String> = Vec::new();
    let n = directory.subscriptions.len();
    let mut k: usize = 0;
    while k < n
        invariant
            n == directory.subscriptions@.len(),
            k <= n,
            out.deep_view() == confirmed_emails(directory.subscriptions@.take(k as int)),
        decreases n - k,
    {
        let ghost before = out.deep_view();
        if directory.subscriptions[k].confirmed {
            out.push(directory.subscriptions[k].email.clone());
            proof {
                assert(out.deep_view() =~= before.push(directory.subscriptions@[k as int].email@));
            }
        }
        k += 1;
        proof {
            let taken = directory.subscriptions@.take(k as int);
            assert(taken.drop_last() =~= directory.subscriptions@.take(k as int - 1));
            assert(taken.last() == directory.subscriptions@[k as int - 1]);
            assert(out.deep_view() =~= confirmed_emails(taken));
        }
    }
    proof {
        assert(directory.subscriptions@.take(n as int) =~= directory.subscriptions@);
        if directory_well_formed(directory) {
            lemma_confirmed_emails_distinct(directory.subscriptions@);
        }
    }
    out
}

/// Looks up which subscriber a confirmation token belongs to.
pub fn get_subscriber_id_from_token(directory: &Directory, subscription_token: &String) -> (r: Option<u128>)
    ensures
        r == token_lookup(directory.tokens@, subscription_token@),
{
    let n = directory.tokens.len();
    let mut k: usize = 0;
    while k < n
        invariant
            n == directory.tokens@.len(),
            k <= n,
            forall|m: int| 0 <= m < k ==> #[trigger] directory.tokens@[m].token@ != subscription_token@,
        decreases n - k,
    {
        if directory.tokens[k].token == *subscription_token {
            proof {
                lemma_token_lookup_at(directory.tokens@, subscription_token@, k as int);
            }
            return Option::Some(directory.tokens[k].subscriber_id);
        }
        k += 1;
    }
    proof {
        lemma_token_lookup_at(directory.tokens@, subscription_token@, n as int);
    }
    Option::None
}

/// Looks an operator's username up by identity.
pub fn get_username(directory: &Directory, user_id: u128) -> (r: Option<String>)
    ensures
        match r {
            Option::Some(name) => username_lookup(directory.users@, user_id) == Option::Some(name@),
            Option::None => username_lookup(directory.users@, user_id) is None,
        },
{
    let n = directory.users.len();
    let mut k: usize = 0;
    while k < n
        invariant
            n == directory.users@.len(),
            k <= n,
            forall|m: int| 0 <= m < k ==> #[trigger] directory.users@[m].user_id != user_id,
        decreases n - k,
    {
        if directory.users[k].user_id == user_id {
            proof {
                lemma_username_lookup_at(directory.users@, user_id, k as int);
            }
            return Option::Some(directory.users[k].username.clone());
        }
        k += 1;
    }
    proof {
        lemma_username_lookup_at(directory.users@, user_id, n as int);
    }
    Option::None
}

/// Marks every subscription of `subscriber_id` confirmed; everything else
/// in the directory stays as it was.
pub fn confirm_subscriber(directory: &mut Directory, subscriber_id: u128)
    ensures
        final(directory).subscriptions@.len() == old(directory).subscriptions@.len(),
        forall|m: int|
            0 <= m < old(directory).subscriptions@.len() ==> #[trigger] final(directory).subscriptions@[m] == (if old(directory).subscriptions@[m].subscriber_id == subscriber_id {
                Subscription {
                    subscriber_id: old(directory).subscriptions@[m].subscriber_id,
                    email: old(directory).subscriptions@[m].email,
                    confirmed: true,
                }
            } else {
                old(directory).subscriptions@[m]
            }),
        final(directory).tokens@ == old(directory).tokens@,
        final(directory).users@ == old(directory).users@,
        directory_well_formed(old(directory)) ==> directory_well_formed(final(directory)),
{
    let n = directory.subscriptions.len();
    let mut k: usize = 0;
    while k < n
        invariant
            n == directory.subscriptions@.len(),
            k <= n,
            directory.tokens@ == old(directory).tokens@,
            directory.users@ == old(directory).users@,
            forall|m: int|
                k <= m < n ==> #[trigger] directory.subscriptions@[m] == old(directory).subscriptions@[m],
            forall|m: int|
                0 <= m < k ==> #[trigger] directory.subscriptions@[m] == (if old(directory).subscriptions@[m].subscriber_id == subscriber_id {
                    Subscription {
                        subscriber_id: old(directory).subscriptions@[m].subscriber_id,
                        email: old(directory).subscriptions@[m].email,
                        confirmed: true,
                    }
                } else {
                    old(directory).subscriptions@[m]
                }),
        decreases n - k,
    {
        if directory.subscriptions[k].subscriber_id == subscriber_id {
            let slot = &mut directory.subscriptions[k];
            slot.confirmed = true;
        }
        k += 1;
    }
    proof {
        if directory_well_formed(old(directory)) {
            assert forall|i: int, j: int| 0 <= i < j < directory.subscriptions@.len() implies
                #[trigger] directory.subscriptions@[i].subscriber_id != #[trigger] directory.subscriptions@[j].subscriber_id by {
                assert(old(directory).subscriptions@[i].subscriber_id != old(directory).subscriptions@[j].subscriber_id);
            };
            assert forall|i: int, j: int| 0 <= i < j < directory.subscriptions@.len() implies
                #[trigger] directory.subscriptions@[i].email@ != #[trigger] directory.subscriptions@[j].email@ by {
                assert(old(directory).subscriptions@[i].email@ != old(directory).subscriptions@[j].email@);
            };
        }
    }
}

/// The confirmation command: resolves the token to its subscriber and marks
/// that subscriber confirmed.  An unknown token is rejected; a store that
/// cannot serve the transaction (`store_ok` false) leaves everything
/// untouched.
pub fn confirm(directory: &mut Directory, parameters: &Parameters, store_ok: bool) -> (r: Result<
    (),
    ConfirmError,
>)
    ensures
        match r {
            Result::Ok(()) => {
                &&& store_ok
                &&& token_lookup(old(directory).tokens@, parameters.subscription_token@)
                    matches Option::Some(id)
                &&& token_lookup(old(directory).tokens@, parameters.subscription_token@)
                    matches Option::Some(id) ==> forall|m: int|
                    0 <= m < old(directory).subscriptions@.len() ==> #[trigger] final(directory).subscriptions@[m] == (if old(directory).subscriptions@[m].subscriber_id == id {
                        Subscription {
                            subscriber_id: old(directory).subscriptions@[m].subscriber_id,
                            email: old(directory).subscriptions@[m].email,
                            confirmed: true,
                        }
                    } else {
                        old(directory).subscriptions@[m]
                    })
                &&& final(directory).subscriptions@.len() == old(directory).subscriptions@.len()
                &&& final(directory).tokens@ == old(directory).tokens@
                &&& final(directory).users@ == old(directory).users@
            },
            Result::Err(e) => {
                &&& *final(directory) == *old(directory)
                &&& e == (if !store_ok {
                    ConfirmError::UnexpectedError
                } else {
                    ConfirmError::UnknownToken
                })
                &&& store_ok ==> token_lookup(
                    old(directory).tokens@,
                    parameters.subscription_token@,
                ) is None
            },
        },
        directory_well_formed(old(directory)) ==> directory_well_formed(final(directory)),
{
    if !store_ok {
        return Result::Err(ConfirmError::UnexpectedError);
    }
    match get_subscriber_id_from_token(directory, &parameters.subscription_token) {
        Option::None => Result::Err(ConfirmError::UnknownToken),
        Option::Some(id) => {
            confirm_subscriber(directory, id);
            Result::Ok(())
        },
    }
}

} // verus!
