use chatbox::ws::{handle_frame, WsFrame, WsReply};

#[test]
fn ping_is_ponged_with_same_bytes() {
    match handle_frame(WsFrame::Ping(vec![1, 2, 3])) {
        WsReply::Pong(bytes) => assert_eq!(bytes, vec![1, 2, 3]),
        _ => panic!("expected a pong"),
    }
}

#[test]
fn text_gets_the_unexpected_notice() {
    match handle_frame(WsFrame::Text(String::from("hello"))) {
        WsReply::Text(text) => assert_eq!(text, "Unexpected Message: hello"),
        _ => panic!("expected a text reply"),
    }
}

#[test]
fn binary_gets_the_invalid_notice() {
    match handle_frame(WsFrame::Binary) {
        WsReply::Text(text) => assert_eq!(text, "Invalid Message"),
        _ => panic!("expected a text reply"),
    }
}

#[test]
fn close_is_answered_with_close() {
    assert!(matches!(handle_frame(WsFrame::Close), WsReply::Close));
}

#[test]
fn other_frames_are_ignored() {
    assert!(matches!(handle_frame(WsFrame::Other), WsReply::Nothing));
}
