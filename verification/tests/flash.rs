use zero2prod::flash::{flash_messages_html, flash_paragraph};

#[test]
fn a_flash_message_is_wrapped_in_an_italic_paragraph() {
    assert_eq!(
        flash_paragraph("authentication failed"),
        "<p><i>authentication failed</i></p>"
    );
    assert_eq!(
        flash_paragraph("The newsletter issue has been published!"),
        "<p><i>The newsletter issue has been published!</i></p>"
    );
}

#[test]
fn flash_messages_render_in_order() {
    let messages = vec![
        "Your password has been changed.".to_string(),
        "You have successfully logged out.".to_string(),
    ];
    assert_eq!(
        flash_messages_html(&messages),
        "<p><i>Your password has been changed.</i></p><p><i>You have successfully logged out.</i></p>"
    );
    assert_eq!(flash_messages_html(&Vec::new()), "");
}
