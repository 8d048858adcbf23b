use lvchat::framing::{drain_messages, extract_frame, find_delimiter, next_frame, Frame};
use lvchat::message::{Message, Server, User};

#[test]
fn delimiter_is_found_where_it_first_stands() {
    assert_eq!(find_delimiter(b""), None);
    assert_eq!(find_delimiter(b"\r"), None);
    assert_eq!(find_delimiter(b"\n\r"), None);
    assert_eq!(find_delimiter(b"ab\rc\n"), None);
    assert_eq!(find_delimiter(b"\r\n"), Some(0));
    assert_eq!(find_delimiter(b"ab\r\ncd\r\n"), Some(2));
    assert_eq!(find_delimiter(b"a\r\r\n"), Some(2));
}

#[test]
fn frame_is_cut_at_the_first_delimiter() {
    let mut buffer = b"abc\r\ndef\r\ngh".to_vec();
    assert_eq!(extract_frame(&mut buffer), Some(b"abc".to_vec()));
    assert_eq!(buffer, b"def\r\ngh".to_vec());
    assert_eq!(extract_frame(&mut buffer), Some(b"def".to_vec()));
    assert_eq!(buffer, b"gh".to_vec());
    assert_eq!(extract_frame(&mut buffer), None);
    assert_eq!(buffer, b"gh".to_vec());
}

#[test]
fn empty_frame_is_a_frame() {
    let mut buffer = b"\r\n".to_vec();
    assert_eq!(extract_frame(&mut buffer), Some(Vec::new()));
    assert!(buffer.is_empty());
}

#[test]
fn framed_message_round_trips() {
    let m = Message::User(User::Text { message: "hi".to_string() });
    let mut buffer = m.to_frame();
    let mut expected = m.to_bytes();
    expected.extend_from_slice(b"\r\n");
    assert_eq!(buffer, expected);
    assert_eq!(next_frame(&mut buffer), Frame::Complete(m));
    assert!(buffer.is_empty());
}

#[test]
fn incomplete_frame_stays_buffered() {
    let m = Message::User(User::Text { message: "hi".to_string() });
    let mut buffer = m.to_bytes();
    let before = buffer.clone();
    assert_eq!(next_frame(&mut buffer), Frame::Incomplete);
    assert_eq!(buffer, before);
    buffer.extend_from_slice(b"\r\n");
    assert_eq!(next_frame(&mut buffer), Frame::Complete(m));
}

#[test]
fn malformed_frame_is_dropped_and_the_next_one_decoded() {
    let m = Message::User(User::Auth { nick: "alice".to_string() });
    let mut buffer = b"garbage\r\n".to_vec();
    buffer.extend_from_slice(&m.to_frame());
    assert_eq!(next_frame(&mut buffer), Frame::Malformed);
    assert_eq!(next_frame(&mut buffer), Frame::Complete(m.clone()));
    assert_eq!(next_frame(&mut buffer), Frame::Incomplete);

    let mut stream = b"garbage\r\n".to_vec();
    stream.extend_from_slice(&m.to_frame());
    assert_eq!(drain_messages(&mut stream), vec![m]);
    assert!(stream.is_empty());
}

#[test]
fn all_complete_frames_are_drained_in_order() {
    let a = Message::Server(Server::Auth);
    let b = Message::Server(Server::Notice { message: "Welcome!".to_string() });
    let c = Message::Server(Server::UserList { users: vec!["bob".to_string()] });
    let mut stream = Vec::new();
    stream.extend_from_slice(&a.to_frame());
    stream.extend_from_slice(&b.to_frame());
    stream.extend_from_slice(&c.to_frame());
    stream.extend_from_slice(&[1, 0, 0]);
    assert_eq!(drain_messages(&mut stream), vec![a, b, c]);
    assert_eq!(stream, vec![1, 0, 0]);
    assert_eq!(drain_messages(&mut stream), Vec::<Message>::new());
}

#[test]
fn text_with_a_delimiter_in_it_is_cut_short() {
    let m = Message::User(User::Text { message: "a\r\nb".to_string() });
    let mut buffer = m.to_frame();
    assert_eq!(next_frame(&mut buffer), Frame::Malformed);
}

#[test]
fn messages_that_hold_the_delimiter_are_told_apart() {
    assert!(!Message::User(User::Text { message: "hi".to_string() }).holds_delimiter());
    assert!(!Message::User(User::Text { message: "a\rb\nc".to_string() }).holds_delimiter());
    assert!(Message::User(User::Text { message: "a\r\nb".to_string() }).holds_delimiter());
    assert!(Message::User(User::Voice { stream: vec![13, 10] }).holds_delimiter());
    // a length of 2573 bytes is written as the bytes 13, 10, 0, ...
    let long = Message::User(User::Auth { nick: "x".repeat(2573) });
    assert!(long.holds_delimiter());
    let mut buffer = long.to_frame();
    assert_eq!(next_frame(&mut buffer), Frame::Malformed);
}

#[test]
fn reads_may_cut_the_stream_anywhere() {
    let a = Message::User(User::Auth { nick: "alice".to_string() });
    let b = Message::User(User::Text { message: "hi".to_string() });
    let c = Message::Server(Server::UserList { users: vec!["bob".to_string()] });
    let mut stream = Vec::new();
    stream.extend_from_slice(&a.to_frame());
    stream.extend_from_slice(b"no message\r\n");
    stream.extend_from_slice(&b.to_frame());
    stream.extend_from_slice(&c.to_frame());
    stream.extend_from_slice(&[7, 7]);

    for cut in 0..=stream.len() {
        let mut buffer = stream[..cut].to_vec();
        let mut messages = drain_messages(&mut buffer);
        buffer.extend_from_slice(&stream[cut..]);
        messages.extend(drain_messages(&mut buffer));
        assert_eq!(messages, vec![a.clone(), b.clone(), c.clone()], "cut at {}", cut);
        assert_eq!(buffer, vec![7, 7]);
    }
}
