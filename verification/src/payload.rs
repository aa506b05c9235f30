//! The publish request payload and its validity predicate.

use vstd::prelude::*;

verus! {

/// The two renderings of a newsletter issue's body.
pub struct Content {
    pub html: String,
    pub text: String,
}

/// A publish request payload: a title plus the issue content.
pub struct BodyData {
    pub title: String,
    pub content: Content,
}

/// Mathematical image of `Content`.
pub ghost struct ContentView {
    pub html: Seq<char>,
    pub text: Seq<char>,
}

/// Mathematical image of `BodyData`.
pub ghost struct BodyDataView {
    pub title: Seq<char>,
    pub content: ContentView,
}

impl View for Content {
    type V = ContentView;

    open spec fn view(&self) -> ContentView {
        ContentView { html: self.html@, text: self.text@ }
    }
}

impl View for BodyData {
    type V = BodyDataView;

    open spec fn view(&self) -> BodyDataView {
        BodyDataView { title: self.title@, content: self.content@ }
    }
}

/// A payload is valid when every required field is non-empty.
pub open spec fn valid_body(b: BodyDataView) -> bool {
    &&& b.title.len() > 0
    &&& b.content.html.len() > 0
    &&& b.content.text.len() > 0
}

impl BodyData {
    /// Decides validity: the title and both content renderings must be
    /// non-empty.
    pub fn is_valid(&self) -> (b: bool)
        ensures
            b == valid_body(self@),
    {
        !self.title.as_str().is_empty() && !self.content.html.as_str().is_empty()
            && !self.content.text.as_str().is_empty()
    }
}

} // verus!
