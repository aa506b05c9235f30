use zero2prod::errors::ConfirmError;
use zero2prod::subscribers::{
    confirm, confirm_subscriber, get_confirmed_subscribers, get_subscriber_id_from_token,
    get_username, Directory, Parameters, Subscription, SubscriptionToken, User,
};

fn directory() -> Directory {
    Directory {
        subscriptions: vec![
            Subscription {
                subscriber_id: 1,
                email: "ursula@example.com".to_string(),
                confirmed: false,
            },
            Subscription {
                subscriber_id: 2,
                email: "gustav@example.com".to_string(),
                confirmed: true,
            },
        ],
        tokens: vec![SubscriptionToken {
            token: "token-ursula".to_string(),
            subscriber_id: 1,
        }],
        users: vec![User {
            user_id: 7,
            username: "editor".to_string(),
        }],
    }
}

#[test]
fn unknown_tokens_are_rejected() {
    let mut dir = directory();
    let parameters = Parameters {
        subscription_token: "no-such-token".to_string(),
    };
    let error = confirm(&mut dir, &parameters, true).unwrap_err();
    assert_eq!(error, ConfirmError::UnknownToken);
    assert_eq!(error.status_code(), 401);
    assert!(!dir.subscriptions[0].confirmed);
}

#[test]
fn a_valid_token_confirms_its_subscriber() {
    let mut dir = directory();
    let before = get_confirmed_subscribers(&dir);
    assert_eq!(before, vec!["gustav@example.com".to_string()]);

    let parameters = Parameters {
        subscription_token: "token-ursula".to_string(),
    };
    confirm(&mut dir, &parameters, true).unwrap();

    assert!(dir.subscriptions[0].confirmed);
    let after = get_confirmed_subscribers(&dir);
    assert_eq!(
        after,
        vec![
            "ursula@example.com".to_string(),
            "gustav@example.com".to_string()
        ]
    );
}

#[test]
fn a_failing_store_confirms_nothing() {
    let mut dir = directory();
    let parameters = Parameters {
        subscription_token: "token-ursula".to_string(),
    };
    let error = confirm(&mut dir, &parameters, false).unwrap_err();
    assert_eq!(error, ConfirmError::UnexpectedError);
    assert_eq!(error.status_code(), 500);
    assert!(!dir.subscriptions[0].confirmed);
}

#[test]
fn tokens_resolve_to_their_subscriber() {
    let dir = directory();
    assert_eq!(
        get_subscriber_id_from_token(&dir, &"token-ursula".to_string()),
        Some(1)
    );
    assert_eq!(
        get_subscriber_id_from_token(&dir, &"missing".to_string()),
        None
    );
}

#[test]
fn confirming_a_subscriber_is_idempotent() {
    let mut dir = directory();
    confirm_subscriber(&mut dir, 1);
    confirm_subscriber(&mut dir, 1);
    assert!(dir.subscriptions[0].confirmed);
    assert!(dir.subscriptions[1].confirmed);
    assert_eq!(get_confirmed_subscribers(&dir).len(), 2);
}

#[test]
fn usernames_are_looked_up_by_identity() {
    let dir = directory();
    assert_eq!(get_username(&dir, 7), Some("editor".to_string()));
    assert_eq!(get_username(&dir, 8), None);
}
