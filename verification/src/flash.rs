//! Rendering flash messages: the one computation the dashboard and login
//! forms perform before wrapping themselves in static markup.

use vstd::prelude::*;
use vstd::string::StringExecFns;

verus! {

/// One flash message wrapped in its italic paragraph.
pub open spec fn flash_paragraph_view(msg: Seq<char>) -> Seq<char> {
    "<p><i>"@ + msg + "</i></p>"@
}

/// All flash messages wrapped and concatenated, in order.
pub open spec fn flash_html_view(msgs: Seq<Seq<char>>) -> Seq<char>
    decreases msgs.len(),
{
    if msgs.len() == 0 {
        Seq::empty()
    } else {
        flash_html_view(msgs.drop_last()) + flash_paragraph_view(msgs.last())
    }
}

/// Wraps one flash message in its italic paragraph.
pub fn flash_paragraph(msg: &str) -> (r: String)
    ensures
        r@ == flash_paragraph_view(msg@),
{
    String::from_str("<p><i>").concat(msg).concat("</i></p>")
}

/// Renders the flash messages of a page, each in its own paragraph.
pub fn flash_messages_html(messages: &Vec<String>) -> (r: String)
    ensures
        r@ == flash_html_view(messages.deep_view()),
{
    let ghost msgs: Seq<Seq<char>> = messages.deep_view();
    let mut out = String::new();
    let n = messages.len();
    let mut k: usize = 0;
    while k < n
        invariant
            n == messages@.len(),
            msgs == messages.deep_view(),
            k <= n,
            out@ == flash_html_view(msgs.take(k as int)),
        decreases n - k,
    {
        let paragraph = flash_paragraph(messages[k].as_str());
        out.append(paragraph.as_str());
        k += 1;
        proof {
            let taken = msgs.take(k as int);
            assert(taken.drop_last() =~= msgs.take(k as int - 1));
            assert(taken.last() == msgs[k as int - 1]);
        }
    }
    proof {
        assert(msgs.take(n as int) =~= msgs);
    }
    out
}

} // verus!
