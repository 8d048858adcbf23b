use lvchat::client::config::Config;
use lvchat::client::event::Event;
use lvchat::client::handler::{
    handle_server_message, handle_server_message_at, handle_user_input, handle_user_input_at,
    Action,
};
use lvchat::client::io::server::capture;
use lvchat::client::io::user::{press, State as Input};
use lvchat::client::message::Message as Line;
use lvchat::client::state::State;
use lvchat::logging::{level, sink, Level, Sink};
use lvchat::message::{Error, Message, Server, User};
use lvchat::transport::{IoFailure, Read};

fn config(nick: &str) -> Config {
    Config {
        verbose: false,
        debug: false,
        quiet: false,
        host: "example.org".to_string(),
        port: 5050,
        nick: nick.to_string(),
        logs_path: None,
    }
}

fn refer(user: &str, message: User) -> Message {
    Message::Server(Server::Refer { user: user.to_string(), message })
}

fn notice(text: &str, ts: i64) -> Line {
    Line { ts, source: "NOTICE".to_string(), text: text.to_string() }
}

fn names(list: &[&str]) -> Vec<String> {
    list.iter().map(|name| name.to_string()).collect()
}

#[test]
fn settings_of_a_development_build() {
    let config = Config::new();
    assert!(config.verbose && config.debug && !config.quiet);
    assert_eq!(config.host, "127.0.0.1");
    assert_eq!(config.port, 5050);
    assert_eq!(config.nick, "avonarret");
    assert_eq!(config.logs_path, None);
    assert_eq!(config.log_level(), Level::Debug);
    assert_eq!(config.log_sink(), Sink::Terminal);
}

#[test]
fn level_follows_the_flags() {
    assert_eq!(level(true, true), Level::Debug);
    assert_eq!(level(true, false), Level::Debug);
    assert_eq!(level(false, true), Level::Info);
    assert_eq!(level(false, false), Level::Error);
}

#[test]
fn sink_follows_the_directory_and_the_quiet_flag() {
    assert_eq!(sink(&None, false), Sink::Terminal);
    assert_eq!(sink(&None, true), Sink::Nowhere);
    let logs = Some("logs".to_string());
    assert_eq!(sink(&logs, false), Sink::Files { directory: "logs".to_string(), echo: true });
    assert_eq!(sink(&logs, true), Sink::Files { directory: "logs".to_string(), echo: false });
    let server = lvchat::server::config::Config {
        verbose: true,
        debug: false,
        quiet: true,
        port: 1,
        logs_path: Some("x".to_string()),
    };
    assert_eq!(server.log_level(), Level::Info);
    assert_eq!(server.log_sink(), Sink::Files { directory: "x".to_string(), echo: false });
}

#[test]
fn state_starts_with_the_client_alone() {
    let state = State::new(config("alice"));
    assert_eq!(state.users, names(&["alice"]));
    assert!(state.messages.is_empty());
    assert_eq!(state.input, "");
    assert_eq!(state.config, config("alice"));
}

#[test]
fn keys_edit_the_line() {
    let mut input = String::new();
    assert_eq!(press(&mut input, b'h'), Input::Edit("h".to_string()));
    assert_eq!(press(&mut input, b'i'), Input::Edit("hi".to_string()));
    assert_eq!(press(&mut input, b'\r'), Input::Edit("hi".to_string()));
    assert_eq!(press(&mut input, 27), Input::Edit("hi".to_string()));
    assert_eq!(press(&mut input, 127), Input::Edit("hi".to_string()));
    assert_eq!(press(&mut input, b'!'), Input::Edit("hi!".to_string()));
    assert_eq!(press(&mut input, 8), Input::Edit("hi".to_string()));
    assert_eq!(press(&mut input, 0xe9), Input::Edit("hi\u{e9}".to_string()));
    assert_eq!(press(&mut input, b'\n'), Input::Sent("hi\u{e9}".to_string()));
    assert_eq!(input, "");
    assert_eq!(press(&mut input, 8), Input::Edit(String::new()));
    assert_eq!(press(&mut input, b'\n'), Input::Sent(String::new()));
}

#[test]
fn line_states_tell_sent_from_edited() {
    assert!(Input::Sent("x".to_string()).is_sent());
    assert!(!Input::Edit("x".to_string()).is_sent());
    assert_eq!(Input::Sent("x".to_string()).text(), "x");
    assert_eq!(Input::Edit("y".to_string()).text(), "y");
    assert_eq!(Event::from(Input::Edit("y".to_string())), Event::UserInput(Input::Edit("y".to_string())));
    let m = Message::Server(Server::Auth);
    assert_eq!(Event::from(m.clone()), Event::Message(m));
}

#[test]
fn typed_line_is_shown() {
    let mut state = State::new(config("alice"));
    let action = handle_user_input_at(&mut state, Input::Edit("he".to_string()), 7);
    assert_eq!(action, Action::Nothing);
    assert_eq!(state.input, "he");
    assert!(state.messages.is_empty());
}

#[test]
fn sent_line_is_trimmed_sent_and_taken_down() {
    let mut state = State::new(config("alice"));
    state.input = "  hello there \t".to_string();
    let action = handle_user_input_at(&mut state, Input::Sent("  hello there \t".to_string()), 7);
    assert_eq!(
        action,
        Action::Send(Message::User(User::Text { message: "hello there".to_string() }))
    );
    assert_eq!(state.input, "");
    assert_eq!(
        state.messages,
        vec![Line { ts: 7, source: "alice".to_string(), text: "hello there".to_string() }]
    );
    assert_eq!(state.users, names(&["alice"]));
}

#[test]
fn quit_takes_leave() {
    let mut state = State::new(config("alice"));
    state.input = "/quit".to_string();
    let action = handle_user_input_at(&mut state, Input::Sent("/quit".to_string()), 7);
    assert_eq!(action, Action::SendAndQuit(Message::User(User::Leave { message: None })));
    assert_eq!(state.input, "");
    assert!(state.messages.is_empty());
    // only the bare command quits
    let action = handle_user_input_at(&mut state, Input::Sent(" /quit".to_string()), 7);
    assert_eq!(action, Action::Send(Message::User(User::Text { message: "/quit".to_string() })));
}

#[test]
fn line_sent_now_is_taken_down_with_a_time() {
    let mut state = State::new(config("alice"));
    let action = handle_user_input(&mut state, Input::Sent("hi".to_string()));
    assert_eq!(action, Action::Send(Message::User(User::Text { message: "hi".to_string() })));
    assert_eq!(state.messages.len(), 1);
    assert_eq!(state.messages[0].source, "alice");
    assert_eq!(state.messages[0].text, "hi");
    // later than the first of January 2020
    assert!(state.messages[0].ts > 1_577_836_800);
}

#[test]
fn challenge_is_answered_with_the_nick() {
    let mut state = State::new(config("alice"));
    let action = handle_server_message_at(&mut state, Message::Server(Server::Auth), 1);
    assert_eq!(action, Action::Send(Message::User(User::Auth { nick: "alice".to_string() })));
    assert_eq!(state, State::new(config("alice")));
}

#[test]
fn refusal_ends_the_client() {
    let mut state = State::new(config("alice"));
    for e in [Error::AlreadyConnected, Error::NickNameInUse] {
        let action = handle_server_message_at(&mut state, Message::Error(e), 1);
        assert_eq!(action, Action::Quit(e));
    }
    assert_eq!(state, State::new(config("alice")));
}

#[test]
fn notice_joins_the_conversation() {
    let mut state = State::new(config("alice"));
    let m = Message::Server(Server::Notice { message: "Welcome!".to_string() });
    assert_eq!(handle_server_message_at(&mut state, m, 42), Action::Nothing);
    assert_eq!(state.messages, vec![notice("Welcome!", 42)]);
    assert_eq!(state.users, names(&["alice"]));
}

#[test]
fn user_list_is_taken_with_the_client_first() {
    let mut state = State::new(config("alice"));
    let m = Message::Server(Server::UserList { users: names(&["bob", "carol"]) });
    assert_eq!(handle_server_message_at(&mut state, m, 1), Action::Nothing);
    assert_eq!(state.users, names(&["alice", "bob", "carol"]));
    let m = Message::Server(Server::UserList { users: vec![] });
    assert_eq!(handle_server_message_at(&mut state, m, 1), Action::Nothing);
    assert_eq!(state.users, names(&["alice"]));
    assert!(state.messages.is_empty());
}

#[test]
fn join_rename_and_leave_follow_in_the_list() {
    let mut state = State::new(config("alice"));
    let join = refer("bob", User::Auth { nick: "bob".to_string() });
    assert_eq!(handle_server_message_at(&mut state, join, 1), Action::Nothing);
    assert_eq!(state.users, names(&["alice", "bob"]));

    let rename = refer("bob", User::Auth { nick: "robert".to_string() });
    assert_eq!(handle_server_message_at(&mut state, rename, 2), Action::Nothing);
    assert_eq!(state.users, names(&["alice", "robert"]));

    let leave = refer("robert", User::Leave { message: Some("bye".to_string()) });
    assert_eq!(handle_server_message_at(&mut state, leave, 3), Action::Nothing);
    assert_eq!(state.users, names(&["alice"]));

    // of a user that is not listed only the note is taken
    let leave = refer("nobody", User::Leave { message: None });
    assert_eq!(handle_server_message_at(&mut state, leave, 4), Action::Nothing);
    assert_eq!(state.users, names(&["alice"]));

    assert_eq!(
        state.messages,
        vec![
            notice("User joined: bob", 1),
            notice("bob changed nick to robert", 2),
            notice("User left: robert", 3),
            notice("User left: nobody", 4),
        ]
    );
}

#[test]
fn leave_takes_the_first_of_two_out() {
    let mut state = State::new(config("alice"));
    state.users = names(&["alice", "bob", "carol", "bob"]);
    let leave = refer("bob", User::Leave { message: None });
    handle_server_message_at(&mut state, leave, 1);
    assert_eq!(state.users, names(&["alice", "carol", "bob"]));
    let rename = refer("bob", User::Auth { nick: "b".to_string() });
    state.users = names(&["bob", "x", "bob"]);
    handle_server_message_at(&mut state, rename, 1);
    assert_eq!(state.users, names(&["b", "x", "b"]));
}

#[test]
fn text_of_another_user_joins_the_conversation() {
    let mut state = State::new(config("alice"));
    let m = refer("bob", User::Text { message: "hi".to_string() });
    assert_eq!(handle_server_message_at(&mut state, m, 9), Action::Nothing);
    assert_eq!(
        state.messages,
        vec![Line { ts: 9, source: "bob".to_string(), text: "hi".to_string() }]
    );
}

#[test]
fn other_messages_change_nothing() {
    let mut state = State::new(config("alice"));
    for m in [
        refer("bob", User::RequestUserList),
        refer("bob", User::Voice { stream: vec![1] }),
        Message::User(User::Text { message: "x".to_string() }),
        Message::User(User::Leave { message: None }),
    ] {
        assert_eq!(handle_server_message_at(&mut state, m, 1), Action::Nothing);
    }
    assert_eq!(state, State::new(config("alice")));
}

#[test]
fn message_received_now_is_taken_down_with_a_time() {
    let mut state = State::new(config("alice"));
    let m = Message::Server(Server::Notice { message: "Welcome!".to_string() });
    assert_eq!(handle_server_message(&mut state, m), Action::Nothing);
    assert_eq!(state.messages.len(), 1);
    assert_eq!(state.messages[0].source, "NOTICE");
    assert_eq!(state.messages[0].text, "Welcome!");
    assert!(state.messages[0].ts > 1_577_836_800);
}

#[test]
fn lines_are_made_and_shown() {
    assert_eq!(
        Line::user_at("bob", "hi", 5),
        Line { ts: 5, source: "bob".to_string(), text: "hi".to_string() }
    );
    assert_eq!(Line::notice_at("x", 5), notice("x", 5));
    let now = Line::user("bob", "hi");
    assert_eq!((now.source.as_str(), now.text.as_str()), ("bob", "hi"));
    let now = Line::notice("hello");
    assert_eq!((now.source.as_str(), now.text.as_str()), ("NOTICE", "hello"));
    assert_eq!(now.clone(), now);

    assert_eq!(Line::user_at("bob", "hi", 0).to_string(), "[00:00, 01. January] <bob> hi");
    // the twelfth of March 2021, 17:45:10 universal time
    assert_eq!(notice("x y", 1_615_571_110).to_string(), "[17:45, 12. March] <NOTICE> x y");
}

#[test]
fn reader_turns_frames_into_events() {
    let a = Message::Server(Server::Auth);
    let b = Message::Server(Server::Notice { message: "Welcome!".to_string() });
    let mut buffer = Vec::new();
    let mut bytes = a.to_frame();
    bytes.extend_from_slice(b"junk\r\n");
    bytes.extend_from_slice(&b.to_frame());
    bytes.extend_from_slice(&[1, 0]);
    let events = capture(&mut buffer, Read::Data(bytes));
    assert_eq!(events, vec![Event::Message(a), Event::Message(b)]);
    assert_eq!(buffer, vec![1, 0]);
    assert!(capture(&mut buffer, Read::Nothing).is_empty());
    assert!(capture(&mut buffer, Read::Failed(IoFailure::WouldBlock)).is_empty());
    assert!(capture(&mut buffer, Read::Failed(IoFailure::Other)).is_empty());
    assert_eq!(buffer, vec![1, 0]);
}

#[test]
fn reader_tells_when_the_server_is_gone() {
    for failure in [IoFailure::ConnectionAborted, IoFailure::ConnectionReset, IoFailure::TimedOut] {
        let mut buffer = Message::Server(Server::Auth).to_frame();
        let before = buffer.clone();
        assert_eq!(capture(&mut buffer, Read::Failed(failure)), vec![Event::Disconnected]);
        assert_eq!(buffer, before);
    }
}

#[test]
fn white_space_of_every_kind_is_trimmed() {
    let mut state = State::new(config("alice"));
    let line = "\u{3000}\u{a0}\t hello\u{2003}there \u{85}\u{2028}\r\n".to_string();
    let action = handle_user_input_at(&mut state, Input::Sent(line), 1);
    assert_eq!(
        action,
        Action::Send(Message::User(User::Text { message: "hello\u{2003}there".to_string() }))
    );
    // what is no white space stays: the zero-width space, and white space inside
    let action = handle_user_input_at(&mut state, Input::Sent("\u{200b} a b \u{200b}".to_string()), 1);
    assert_eq!(
        action,
        Action::Send(Message::User(User::Text { message: "\u{200b} a b \u{200b}".to_string() }))
    );
    let action = handle_user_input_at(&mut state, Input::Sent("   ".to_string()), 1);
    assert_eq!(action, Action::Send(Message::User(User::Text { message: String::new() })));
}
