//! Cached HTTP responses: the value the idempotency guard records and
//! replays, and the fixed responses of the publish endpoint.

use crate::errors::PublishError;
use vstd::prelude::*;
use vstd::string::StringExecFns;

verus! {

/// A response as the guard stores it: status code, optional redirect target
/// and body.  Replaying a completed idempotency record hands this value back
/// byte for byte.
#[derive(Debug)]
pub struct SavedResponse {
    pub status: u16,
    pub location: Option<String>,
    pub body: String,
}

/// Mathematical image of `SavedResponse`.
pub ghost struct ResponseView {
    pub status: u16,
    pub location: Option<Seq<char>>,
    pub body: Seq<char>,
}

impl View for SavedResponse {
    type V = ResponseView;

    open spec fn view(&self) -> ResponseView {
        ResponseView {
            status: self.status,
            location: match self.location {
                Option::Some(l) => Option::Some(l@),
                Option::None => Option::None,
            },
            body: self.body@,
        }
    }
}

impl Clone for SavedResponse {
    /// A clone carries the same status, redirect target and body.
    fn clone(&self) -> (r: Self)
        ensures
            r@ == self@,
    {
        SavedResponse {
            status: self.status,
            location: match &self.location {
                Option::Some(l) => Option::Some(l.clone()),
                Option::None => Option::None,
            },
            body: self.body.clone(),
        }
    }
}

/// The response recorded for a successfully executed publish: a redirect
/// back to the newsletter form carrying the confirmation message.
pub open spec fn success_response_view() -> ResponseView {
    ResponseView {
        status: 303,
        location: Option::Some("/admin/newsletters"@),
        body: "<p><i>The newsletter issue has been published!</i></p>"@,
    }
}

/// Builds the success response of the publish endpoint.
pub fn success_response() -> (r: SavedResponse)
    ensures
        r@ == success_response_view(),
{
    SavedResponse {
        status: 303,
        location: Option::Some(String::from_str("/admin/newsletters")),
        body: String::from_str("<p><i>The newsletter issue has been published!</i></p>"),
    }
}

/// The client-visible response for each publish error variant: a client
/// error for an invalid payload, a redirect to the login form for a missing
/// actor, a server error for a failed commit.
pub open spec fn error_response_view(e: PublishError) -> ResponseView {
    match e {
        PublishError::InvalidInput => ResponseView {
            status: 400,
            location: Option::None,
            body: "<p><i>Title, html content and text content must not be empty.</i></p>"@,
        },
        PublishError::Unauthenticated => ResponseView {
            status: 303,
            location: Option::Some("/login"@),
            body: Seq::<char>::empty(),
        },
        PublishError::StoreFailure => ResponseView {
            status: 500,
            location: Option::None,
            body: Seq::<char>::empty(),
        },
    }
}

/// Renders a publish error as the response a client receives.
pub fn error_response(e: &PublishError) -> (r: SavedResponse)
    ensures
        r@ == error_response_view(*e),
{
    match e {
        PublishError::InvalidInput => SavedResponse {
            status: 400,
            location: Option::None,
            body: String::from_str(
                "<p><i>Title, html content and text content must not be empty.</i></p>",
            ),
        },
        PublishError::Unauthenticated => SavedResponse {
            status: 303,
            location: Option::Some(String::from_str("/login")),
            body: String::new(),
        },
        PublishError::StoreFailure => SavedResponse {
            status: 500,
            location: Option::None,
            body: String::new(),
        },
    }
}

} // verus!
