use lvchat::message::{Error, Message, Server, User as Payload};
use lvchat::server::client::Client;
use lvchat::server::config::Config;
use lvchat::server::event::Event;
use lvchat::server::handler::client::{
    broadcast_user_message, get_all_clients_with_exception, handle, handle_message, is_among,
    nicks_of, Handler, Step,
};
use lvchat::server::handler::server::{handle_event, handle_incoming_client, Admission};
use lvchat::server::state::State;
use lvchat::transport::{classify, Disposition, IoFailure, Probe, Read};
use lvchat::user::{Addr, Ip, User};

fn addr(host: u32, port: u16) -> Addr {
    Addr { ip: Ip::V4(host), port }
}

fn ghost(host: u32) -> Client {
    Client::new(addr(host, 4000))
}

fn named(nick: &str, host: u32) -> Client {
    Client { user: User::Authenticated { nick: nick.to_string(), addr: addr(host, 4000) } }
}

fn auth(nick: &str) -> Message {
    Message::User(Payload::Auth { nick: nick.to_string() })
}

fn refer(user: &str, message: Payload) -> Message {
    Message::Server(Server::Refer { user: user.to_string(), message })
}

/// A state with ghosts from the hosts 1 to `n`.
fn state_with(n: u32) -> State {
    let mut state = State::new(Config::init());
    for host in 1..=n {
        match handle_incoming_client(&mut state, addr(host, 4000), Probe::Live) {
            Admission::NewSession(client) => assert_eq!(client, ghost(host)),
            other => panic!("not admitted: {:?}", other),
        }
    }
    state
}

fn registry(state: &State) -> Vec<Client> {
    (0..state.len()).map(|i| state.client(i).clone()).collect()
}

#[test]
fn new_state_is_empty() {
    let state = State::new(Config::init());
    assert_eq!(state.len(), 0);
    assert_eq!(state.settings().port, 5050);
    assert!(state.get_client_by_addr(&addr(1, 1)).is_none());
    assert!(state.get_client_by_name("alice").is_none());
}

#[test]
fn config_of_a_development_build() {
    let config = Config::init();
    assert!(config.verbose);
    assert!(config.debug);
    assert!(!config.quiet);
    assert_eq!(config.port, 5050);
    assert_eq!(config.logs_path, None);
}

#[test]
fn connection_from_a_new_host_is_admitted_as_a_ghost() {
    let mut state = State::new(Config::init());
    let admission = handle_incoming_client(&mut state, addr(7, 1234), Probe::Live);
    assert_eq!(admission.notice(), None);
    match admission {
        Admission::NewSession(client) => {
            assert_eq!(client.user, User::Guest { addr: addr(7, 1234) })
        }
        other => panic!("not admitted: {:?}", other),
    }
    assert_eq!(registry(&state), vec![Client::new(addr(7, 1234))]);
    // the probe is not looked at when the host is new
    let admission = handle_incoming_client(&mut state, addr(8, 1), Probe::TimedOut);
    assert!(matches!(admission, Admission::NewSession(_)));
    assert_eq!(state.len(), 2);
}

#[test]
fn sessions_are_found_by_host_and_by_nick() {
    let mut state = state_with(2);
    handle_message(&mut state, &ghost(2), auth("bob"));
    assert_eq!(state.get_client_by_addr(&addr(1, 9)), Some(ghost(1)));
    assert_eq!(state.get_client_by_addr(&addr(2, 9)), Some(named("bob", 2)));
    assert_eq!(state.get_client_by_addr(&addr(3, 4000)), None);
    assert_eq!(state.get_client_by_name("bob"), Some(named("bob", 2)));
    assert_eq!(state.get_client_by_name("Bob"), None);
    assert_eq!(state.index_of_ip(Ip::V4(2)), Some(1));
    assert_eq!(state.index_of_ip(Ip::V6(2)), None);
    assert_eq!(state.index_of_nick("bob"), Some(1));
    assert_eq!(state.index_of(&named("bob", 2)), Some(1));
    assert_eq!(state.index_of(&ghost(2)), None);
    assert!(state.is_taken_by_other(0, "bob"));
    assert!(!state.is_taken_by_other(1, "bob"));
    assert!(!state.is_taken_by_other(0, "alice"));
}

#[test]
fn reconnection_after_a_timeout_keeps_the_identity() {
    let mut state = state_with(2);
    handle_message(&mut state, &ghost(1), auth("alice"));
    let before = registry(&state);
    let admission = handle_incoming_client(&mut state, addr(1, 5999), Probe::TimedOut);
    assert_eq!(admission.notice(), None);
    match admission {
        Admission::MigratedSession(client) => assert_eq!(client, named("alice", 1)),
        other => panic!("not migrated: {:?}", other),
    }
    assert_eq!(registry(&state), before);
}

#[test]
fn second_connection_from_a_connected_host_is_rejected() {
    let mut state = state_with(2);
    handle_message(&mut state, &ghost(1), auth("alice"));
    let before = registry(&state);
    let admission = handle_incoming_client(&mut state, addr(1, 5999), Probe::Live);
    assert!(matches!(admission, Admission::Rejected));
    assert_eq!(admission.notice(), Some(Message::Error(Error::AlreadyConnected)));
    assert_eq!(registry(&state), before);
}

#[test]
fn probe_is_read_off_the_pending_error() {
    assert_eq!(Probe::of(Some(IoFailure::TimedOut)), Probe::TimedOut);
    assert_eq!(Probe::of(None), Probe::Live);
    assert_eq!(Probe::of(Some(IoFailure::ConnectionReset)), Probe::Live);
    assert_eq!(Probe::of(Some(IoFailure::WouldBlock)), Probe::Live);
    assert_eq!(Probe::of(Some(IoFailure::Other)), Probe::Live);
}

#[test]
fn failures_are_classified() {
    assert_eq!(classify(IoFailure::WouldBlock), Disposition::Retry);
    assert_eq!(classify(IoFailure::ConnectionReset), Disposition::Terminal);
    assert_eq!(classify(IoFailure::TimedOut), Disposition::Terminal);
    assert_eq!(classify(IoFailure::ConnectionAborted), Disposition::Ignore);
    assert_eq!(classify(IoFailure::Other), Disposition::Ignore);
}

#[test]
fn scenario_authentication_and_collision() {
    let mut state = State::new(Config::init());
    // client A connects and receives the challenge
    let a = match handle_incoming_client(&mut state, addr(1, 4000), Probe::Live) {
        Admission::NewSession(client) => client,
        other => panic!("not admitted: {:?}", other),
    };
    assert_eq!(
        handle_event(&mut state, Event::Accepted(a.clone())),
        vec![Message::Server(Server::Auth)]
    );
    let b = match handle_incoming_client(&mut state, addr(2, 4000), Probe::Live) {
        Admission::NewSession(client) => client,
        other => panic!("not admitted: {:?}", other),
    };

    // A authenticates as alice: no error, and B hears of it
    let reaction = handle_message(&mut state, &a, auth("alice"));
    assert_eq!(reaction.reply, None);
    assert_eq!(reaction.client, named("alice", 1));
    assert_eq!(reaction.event, Some(Event::Authenticated(named("alice", 1))));
    assert_eq!(
        reaction.relay,
        Some(refer("alice", Payload::Auth { nick: "alice".to_string() }))
    );
    assert_eq!(reaction.recipients, vec![b.clone()]);
    assert!(!reaction.leaving);
    assert_eq!(registry(&state), vec![named("alice", 1), ghost(2)]);

    // the coordinator greets alice and gives her the roster
    assert_eq!(
        handle_event(&mut state, reaction.event.unwrap()),
        vec![
            Message::Server(Server::Notice { message: "Welcome!".to_string() }),
            Message::Server(Server::UserList { users: vec![] }),
        ]
    );

    // B asks for the same nick: it is refused and stays a ghost
    let reaction = handle_message(&mut state, &b, auth("alice"));
    assert_eq!(reaction.reply, Some(Message::Error(Error::NickNameInUse)));
    assert_eq!(reaction.client, b);
    assert_eq!(reaction.event, None);
    assert_eq!(
        reaction.relay,
        Some(refer("alice", Payload::Auth { nick: "alice".to_string() }))
    );
    assert_eq!(reaction.recipients, vec![named("alice", 1)]);
    assert_eq!(registry(&state), vec![named("alice", 1), ghost(2)]);
}

#[test]
fn scenario_text_goes_to_everyone_else() {
    let mut state = state_with(3);
    handle_message(&mut state, &ghost(1), auth("alice"));
    handle_message(&mut state, &ghost(2), auth("bob"));
    handle_message(&mut state, &ghost(3), auth("carol"));
    let before = registry(&state);

    let text = Payload::Text { message: "hi".to_string() };
    let reaction = handle_message(&mut state, &named("alice", 1), Message::User(text.clone()));
    assert_eq!(reaction.reply, None);
    assert_eq!(reaction.event, None);
    assert_eq!(reaction.relay, Some(refer("alice", text)));
    assert_eq!(reaction.recipients, vec![named("bob", 2), named("carol", 3)]);
    assert!(!reaction.recipients.contains(&named("alice", 1)));
    assert!(!reaction.leaving);
    assert_eq!(reaction.client, named("alice", 1));
    assert_eq!(registry(&state), before);
}

#[test]
fn scenario_leave_frees_the_nick() {
    let mut state = state_with(2);
    handle_message(&mut state, &ghost(1), auth("alice"));
    handle_message(&mut state, &ghost(2), auth("bob"));

    let leave = Payload::Leave { message: None };
    let reaction = handle_message(&mut state, &named("alice", 1), Message::User(leave.clone()));
    assert_eq!(reaction.relay, Some(refer("alice", leave)));
    assert_eq!(reaction.recipients, vec![named("bob", 2)]);
    assert!(reaction.leaving);
    assert_eq!(reaction.reply, None);

    // the handler ends, and the coordinator takes the session out
    assert!(handle_event(&mut state, Event::Dropped(reaction.client)).is_empty());
    assert_eq!(registry(&state), vec![named("bob", 2)]);
    assert!(state.get_client_by_name("alice").is_none());

    // the nick can be taken again
    let c = match handle_incoming_client(&mut state, addr(3, 4000), Probe::Live) {
        Admission::NewSession(client) => client,
        other => panic!("not admitted: {:?}", other),
    };
    let reaction = handle_message(&mut state, &c, auth("alice"));
    assert_eq!(reaction.reply, None);
    assert_eq!(reaction.client, named("alice", 3));
    assert_eq!(registry(&state), vec![named("bob", 2), named("alice", 3)]);
}

#[test]
fn dropping_an_absent_session_is_no_error() {
    let mut state = state_with(2);
    assert!(handle_event(&mut state, Event::Dropped(ghost(9))).is_empty());
    assert_eq!(registry(&state), vec![ghost(1), ghost(2)]);
    assert!(handle_event(&mut state, Event::Dropped(ghost(1))).is_empty());
    assert!(handle_event(&mut state, Event::Dropped(ghost(1))).is_empty());
    assert_eq!(registry(&state), vec![ghost(2)]);
    state.remove(&ghost(2));
    state.remove(&ghost(2));
    assert_eq!(state.len(), 0);
}

#[test]
fn nick_is_held_by_one_session_at_most() {
    let mut state = state_with(3);
    let mut refused = 0;
    for host in 1..=3 {
        let reaction = handle_message(&mut state, &ghost(host), auth("alice"));
        if reaction.reply == Some(Message::Error(Error::NickNameInUse)) {
            refused += 1;
            assert_eq!(reaction.client, ghost(host));
        }
        let holders = registry(&state)
            .iter()
            .filter(|client| client.user.nick() == Some("alice"))
            .count();
        assert_eq!(holders, 1);
    }
    assert_eq!(refused, 2);
    assert_eq!(registry(&state), vec![named("alice", 1), ghost(2), ghost(3)]);
}

#[test]
fn rename_is_relayed_under_the_old_nick() {
    let mut state = state_with(2);
    handle_message(&mut state, &ghost(1), auth("alice"));
    handle_message(&mut state, &ghost(2), auth("bob"));

    let reaction = handle_message(&mut state, &named("alice", 1), auth("alicia"));
    assert_eq!(reaction.reply, None);
    assert_eq!(reaction.event, None);
    assert_eq!(reaction.client, named("alicia", 1));
    assert_eq!(
        reaction.relay,
        Some(refer("alice", Payload::Auth { nick: "alicia".to_string() }))
    );
    assert_eq!(reaction.recipients, vec![named("bob", 2)]);
    assert_eq!(registry(&state), vec![named("alicia", 1), named("bob", 2)]);

    // a rename to a nick that is taken is refused, and the old nick stays
    let reaction = handle_message(&mut state, &named("alicia", 1), auth("bob"));
    assert_eq!(reaction.reply, Some(Message::Error(Error::NickNameInUse)));
    assert_eq!(reaction.client, named("alicia", 1));
    assert_eq!(
        reaction.relay,
        Some(refer("alicia", Payload::Auth { nick: "bob".to_string() }))
    );
    assert_eq!(registry(&state), vec![named("alicia", 1), named("bob", 2)]);

    // a session may ask for the nick that it holds
    let reaction = handle_message(&mut state, &named("bob", 2), auth("bob"));
    assert_eq!(reaction.reply, None);
    assert_eq!(reaction.client, named("bob", 2));
    assert_eq!(registry(&state), vec![named("alicia", 1), named("bob", 2)]);
}

#[test]
fn roster_holds_the_other_authenticated_sessions() {
    let mut state = state_with(4);
    handle_message(&mut state, &ghost(1), auth("alice"));
    handle_message(&mut state, &ghost(2), auth("bob"));
    handle_message(&mut state, &ghost(4), auth("dave"));
    let before = registry(&state);

    let reaction =
        handle_message(&mut state, &named("bob", 2), Message::User(Payload::RequestUserList));
    assert_eq!(
        reaction.reply,
        Some(Message::Server(Server::UserList {
            users: vec!["alice".to_string(), "dave".to_string()]
        }))
    );
    assert_eq!(reaction.relay, None);
    assert!(reaction.recipients.is_empty());
    assert_eq!(reaction.event, None);
    assert!(!reaction.leaving);
    assert_eq!(registry(&state), before);

    assert_eq!(
        handle_event(&mut state, Event::Authenticated(named("dave", 4))),
        vec![
            Message::Server(Server::Notice { message: "Welcome!".to_string() }),
            Message::Server(Server::UserList {
                users: vec!["alice".to_string(), "bob".to_string()]
            }),
        ]
    );
    assert_eq!(nicks_of(&before), vec!["alice".to_string(), "bob".to_string(), "dave".to_string()]);
}

#[test]
fn ghost_is_heard_under_the_empty_name() {
    let mut state = state_with(2);
    let text = Payload::Text { message: "boo".to_string() };
    let reaction = handle_message(&mut state, &ghost(1), Message::User(text.clone()));
    assert_eq!(reaction.relay, Some(refer("", text)));
    assert_eq!(reaction.recipients, vec![ghost(2)]);
    assert_eq!(reaction.reply, None);
    assert_eq!(reaction.client, ghost(1));

    // a ghost gets no roster: its request is relayed like any other message
    let reaction =
        handle_message(&mut state, &ghost(1), Message::User(Payload::RequestUserList));
    assert_eq!(reaction.reply, None);
    assert_eq!(reaction.relay, Some(refer("", Payload::RequestUserList)));
    assert_eq!(reaction.recipients, vec![ghost(2)]);
    assert_eq!(registry(&state), vec![ghost(1), ghost(2)]);
}

#[test]
fn voice_is_relayed_like_text() {
    let mut state = state_with(2);
    handle_message(&mut state, &ghost(1), auth("alice"));
    let voice = Payload::Voice { stream: vec![1, 2, 3] };
    let reaction = handle_message(&mut state, &named("alice", 1), Message::User(voice.clone()));
    assert_eq!(reaction.relay, Some(refer("alice", voice)));
    assert_eq!(reaction.recipients, vec![ghost(2)]);
}

#[test]
fn messages_of_the_server_are_ignored_when_a_client_sends_them() {
    let mut state = state_with(2);
    handle_message(&mut state, &ghost(1), auth("alice"));
    let before = registry(&state);
    for message in [
        Message::Server(Server::Auth),
        Message::Server(Server::Notice { message: "x".to_string() }),
        Message::Error(Error::NickNameInUse),
        Message::Error(Error::AlreadyConnected),
    ] {
        for sender in [named("alice", 1), ghost(2)] {
            let reaction = handle_message(&mut state, &sender, message.clone());
            assert_eq!(reaction.reply, None);
            assert_eq!(reaction.relay, None);
            assert_eq!(reaction.event, None);
            assert!(reaction.recipients.is_empty());
            assert!(!reaction.leaving);
            assert_eq!(reaction.client, sender);
        }
    }
    assert_eq!(registry(&state), before);
}

#[test]
fn message_of_an_unregistered_session_does_nothing() {
    let mut state = state_with(1);
    let reaction = handle_message(&mut state, &ghost(5), auth("alice"));
    assert_eq!(reaction.reply, None);
    assert_eq!(reaction.relay, None);
    assert_eq!(reaction.event, None);
    assert_eq!(reaction.client, ghost(5));
    assert_eq!(registry(&state), vec![ghost(1)]);
}

#[test]
fn broadcast_leaves_out_the_sender() {
    let mut state = state_with(3);
    handle_message(&mut state, &ghost(2), auth("bob"));
    let text = Payload::Text { message: "hi".to_string() };
    let broadcast = broadcast_user_message(&state, &named("bob", 2), &text);
    assert_eq!(broadcast.message, refer("bob", text.clone()));
    assert_eq!(broadcast.recipients, vec![ghost(1), ghost(3)]);
    // a sender that is not registered is left out of nothing
    let broadcast = broadcast_user_message(&state, &named("zed", 9), &text);
    assert_eq!(broadcast.message, refer("zed", text));
    assert_eq!(broadcast.recipients, vec![ghost(1), named("bob", 2), ghost(3)]);
}

#[test]
fn exceptions_are_left_out() {
    let state = state_with(3);
    let one = ghost(1);
    let three = ghost(3);
    assert_eq!(get_all_clients_with_exception(&state, &[]), vec![ghost(1), ghost(2), ghost(3)]);
    assert_eq!(get_all_clients_with_exception(&state, &[&one, &three]), vec![ghost(2)]);
    assert!(is_among(&one, &[&three, &one]));
    assert!(!is_among(&one, &[&three]));
    assert!(!is_among(&one, &[]));
}

#[test]
fn handler_ends_on_a_reset_or_a_timeout() {
    let mut state = state_with(1);
    let mut client = ghost(1);
    let mut buffer = auth("alice").to_frame();
    let before = buffer.clone();
    for failure in [IoFailure::ConnectionReset, IoFailure::TimedOut] {
        let step = handle(&mut state, &mut client, &mut buffer, Read::Failed(failure));
        assert!(matches!(step, Step::Disconnected));
        assert_eq!(buffer, before);
        assert_eq!(client, ghost(1));
        assert_eq!(registry(&state), vec![ghost(1)]);
    }
}

#[test]
fn handler_goes_on_after_other_failures() {
    let mut state = state_with(1);
    let mut client = ghost(1);
    let mut buffer = Vec::new();
    for failure in [IoFailure::WouldBlock, IoFailure::ConnectionAborted, IoFailure::Other] {
        let step = handle(&mut state, &mut client, &mut buffer, Read::Failed(failure));
        assert!(matches!(step, Step::Idle));
    }
    assert!(matches!(handle(&mut state, &mut client, &mut buffer, Read::Nothing), Step::Idle));
}

#[test]
fn handler_buffers_until_a_frame_is_complete() {
    let mut state = state_with(2);
    let mut client = ghost(1);
    let mut buffer = Vec::new();
    let frame = auth("alice").to_frame();
    let (head, tail) = frame.split_at(7);

    let step = handle(&mut state, &mut client, &mut buffer, Read::Data(head.to_vec()));
    assert!(matches!(step, Step::Idle));
    assert_eq!(buffer, head.to_vec());
    assert_eq!(client, ghost(1));

    let step = handle(&mut state, &mut client, &mut buffer, Read::Data(tail.to_vec()));
    match step {
        Step::Handled(reaction) => {
            assert_eq!(reaction.client, named("alice", 1));
            assert_eq!(reaction.recipients, vec![ghost(2)]);
            assert_eq!(reaction.reply, None);
        }
        other => panic!("not handled: {:?}", other),
    }
    assert!(buffer.is_empty());
    assert_eq!(client, named("alice", 1));
    assert_eq!(registry(&state), vec![named("alice", 1), ghost(2)]);
}

#[test]
fn handler_survives_a_malformed_frame() {
    let mut state = state_with(2);
    let mut client = ghost(1);
    let mut buffer = Vec::new();
    let mut bytes = b"nonsense\r\n".to_vec();
    bytes.extend_from_slice(&auth("alice").to_frame());

    let step = handle(&mut state, &mut client, &mut buffer, Read::Data(bytes));
    assert!(matches!(step, Step::Skipped));
    assert_eq!(client, ghost(1));
    assert_eq!(registry(&state), vec![ghost(1), ghost(2)]);

    let step = handle(&mut state, &mut client, &mut buffer, Read::Nothing);
    assert!(matches!(step, Step::Handled(_)));
    assert_eq!(client, named("alice", 1));
    assert!(buffer.is_empty());
}

#[test]
fn events_are_copied_whole() {
    let event = Event::Authenticated(named("alice", 1));
    assert_eq!(event.clone(), event);
    assert_ne!(event, Event::Accepted(named("alice", 1)));
}

#[test]
fn handler_opens_with_accepted_and_closes_with_dropped() {
    let mut state = state_with(2);
    let (mut handler, first) = Handler::start(ghost(1));
    assert_eq!(first, Event::Accepted(ghost(1)));
    assert_eq!(*handler.client(), ghost(1));
    assert!(!handler.over());

    // nothing to read: the handler waits, and emits nothing
    let turn = handler.turn(&mut state, Read::Nothing);
    assert_eq!(turn.step, Step::Idle);
    assert_eq!(turn.dropped, None);

    // the first nickname: the one event in between
    let turn = handler.turn(&mut state, Read::Data(auth("alice").to_frame()));
    match &turn.step {
        Step::Handled(reaction) => {
            assert_eq!(reaction.event, Some(Event::Authenticated(named("alice", 1))))
        }
        other => panic!("not handled: {:?}", other),
    }
    assert_eq!(turn.dropped, None);
    assert_eq!(*handler.client(), named("alice", 1));
    assert!(!handler.over());

    // a malformed frame does not end the handler
    let turn = handler.turn(&mut state, Read::Data(b"junk\r\n".to_vec()));
    assert_eq!(turn.step, Step::Skipped);
    assert_eq!(turn.dropped, None);
    assert!(!handler.over());

    // the leave is the last turn: the session is dropped, under its last identity
    let leave = Message::User(Payload::Leave { message: None });
    let turn = handler.turn(&mut state, Read::Data(leave.to_frame()));
    match &turn.step {
        Step::Handled(reaction) => {
            assert!(reaction.leaving);
            assert_eq!(reaction.event, None);
            assert_eq!(reaction.recipients, vec![ghost(2)]);
        }
        other => panic!("not handled: {:?}", other),
    }
    assert_eq!(turn.dropped, Some(Event::Dropped(named("alice", 1))));
    assert!(handler.over());

    // after its end the handler does nothing and emits nothing
    let before = registry(&state);
    let turn = handler.turn(&mut state, Read::Data(auth("bob").to_frame()));
    assert_eq!(turn.step, Step::Disconnected);
    assert_eq!(turn.dropped, None);
    assert_eq!(registry(&state), before);
    assert_eq!(*handler.client(), named("alice", 1));
}

#[test]
fn handler_closes_with_dropped_when_the_connection_is_gone() {
    for failure in [IoFailure::ConnectionReset, IoFailure::TimedOut] {
        let mut state = state_with(1);
        let (mut handler, first) = Handler::start(ghost(1));
        assert_eq!(first, Event::Accepted(ghost(1)));
        let turn = handler.turn(&mut state, Read::Failed(failure));
        assert_eq!(turn.step, Step::Disconnected);
        assert_eq!(turn.dropped, Some(Event::Dropped(ghost(1))));
        assert!(handler.over());
        let turn = handler.turn(&mut state, Read::Failed(failure));
        assert_eq!(turn.dropped, None);
        assert_eq!(registry(&state), vec![ghost(1)]);
    }
    let mut state = state_with(1);
    let (mut handler, _) = Handler::start(ghost(1));
    for failure in [IoFailure::WouldBlock, IoFailure::ConnectionAborted, IoFailure::Other] {
        let turn = handler.turn(&mut state, Read::Failed(failure));
        assert_eq!(turn.step, Step::Idle);
        assert_eq!(turn.dropped, None);
        assert!(!handler.over());
    }
}
