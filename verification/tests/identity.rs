use lvchat::server::client::Client;
use lvchat::user::{Addr, Ip, NoNick, User};
use lvchat::text::{is_white_space, same_text};

fn addr(host: u32, port: u16) -> Addr {
    Addr { ip: Ip::V4(host), port }
}

#[test]
fn ghost_has_an_address_and_no_nick() {
    let user = User::Guest { addr: addr(1, 5050) };
    assert!(user.is_ghost());
    assert!(!user.is_authenticated());
    assert_eq!(*user.addr(), addr(1, 5050));
    assert_eq!(user.nick(), None);
    assert_eq!(user.nick_unchecked(), Err(NoNick));
}

#[test]
fn authenticated_has_an_address_and_a_nick() {
    let user = User::Authenticated { nick: "alice".to_string(), addr: addr(1, 5050) };
    assert!(!user.is_ghost());
    assert!(user.is_authenticated());
    assert_eq!(*user.addr(), addr(1, 5050));
    assert_eq!(user.nick(), Some("alice"));
    assert_eq!(user.nick_unchecked(), Ok("alice"));
}

#[test]
fn identities_are_equal_by_value() {
    let a = User::Authenticated { nick: "alice".to_string(), addr: addr(1, 5050) };
    assert_eq!(a.clone(), a);
    assert_ne!(a, User::Authenticated { nick: "Alice".to_string(), addr: addr(1, 5050) });
    assert_ne!(a, User::Authenticated { nick: "alice".to_string(), addr: addr(1, 5051) });
    assert_ne!(a, User::Guest { addr: addr(1, 5050) });
    assert_eq!(User::Guest { addr: addr(2, 1) }, User::Guest { addr: addr(2, 1) });
    assert_ne!(User::Guest { addr: addr(2, 1) }, User::Guest { addr: addr(3, 1) });
    assert_ne!(
        User::Guest { addr: Addr { ip: Ip::V4(1), port: 1 } },
        User::Guest { addr: Addr { ip: Ip::V6(1), port: 1 } }
    );
}

#[test]
fn sessions_are_equal_by_identity() {
    let a = Client::new(addr(1, 5050));
    assert_eq!(a.user, User::Guest { addr: addr(1, 5050) });
    assert_eq!(a.clone(), a);
    assert_ne!(a, Client::new(addr(2, 5050)));
    assert_ne!(a, Client { user: User::Authenticated { nick: "a".to_string(), addr: addr(1, 5050) } });
}

#[test]
fn texts_compare_by_content() {
    assert!(same_text("", ""));
    assert!(same_text("alice", "alice"));
    assert!(!same_text("alice", "alicf"));
    assert!(!same_text("alice", "alic"));
    assert!(!same_text("alice", "Alice"));
    assert!(same_text("zoë", "zoë"));
}

#[test]
fn white_space_is_what_the_standard_library_calls_so() {
    let mut count = 0;
    for n in 0..=0x10ffffu32 {
        if let Some(c) = char::from_u32(n) {
            assert_eq!(is_white_space(c), c.is_whitespace(), "U+{:04X}", n);
            if is_white_space(c) {
                count += 1;
            }
        }
    }
    assert_eq!(count, 25);
}
