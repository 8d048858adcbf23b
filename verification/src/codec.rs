//! Messages to bytes and back.
//!
//! The fields of a message are laid out by `bincode2`; the choice of variant,
//! and the order of the fields, is made here.

use vstd::prelude::*;
use vstd::slice::slice_subrange;
use crate::layout::{
    blob_layout, error_wire, le_bytes, le_value, lemma_error_wire_parts, lemma_le_bytes_len,
    lemma_le_bytes_of_value, lemma_parse_found, lemma_prefix_split, lemma_radix_values,
    lemma_server_sized_by_length, lemma_server_wire_parts, lemma_sized_by_length, lemma_tagged,
    lemma_user_sized_by_length, lemma_user_wire_parts, lemma_wire_parts, optional_text_layout,
    parse, server_sized, server_wire, sized, tag, text_layout, text_list_layout, user_sized,
    user_wire, wire,
};
use crate::message::{
    optional_text, texts, Error, Message, MessageView, Server, ServerView, User, UserView,
};

verus! {

/// `bincode2::serialize` on a `String`, with the default configuration: the
/// UTF-8 length as a little-endian `u64`, then the UTF-8 bytes. It cannot fail:
/// there is no size limit, and a length always has room in eight bytes.
#[verifier::external_body]
fn serialize_text(s: &String) -> (r: Vec<u8>)
    ensures
        r@ == text_layout(s@),
{
    bincode2::serialize(s).unwrap()
}

/// `bincode2::serialize` on a `Vec<u8>`: the length as a little-endian `u64`,
/// then the bytes one by one.
#[verifier::external_body]
fn serialize_blob(b: &Vec<u8>) -> (r: Vec<u8>)
    ensures
        r@ == blob_layout(b@),
{
    bincode2::serialize(b).unwrap()
}

/// `bincode2::serialize` on an `Option<String>`: the byte 0 for `None`, the
/// byte 1 and the string for `Some`.
#[verifier::external_body]
fn serialize_optional_text(o: &Option<String>) -> (r: Vec<u8>)
    ensures
        r@ == optional_text_layout(optional_text(*o)),
{
    bincode2::serialize(o).unwrap()
}

/// `bincode2::serialize` on a `Vec<String>`: the number of strings as a
/// little-endian `u64`, then each string in order.
#[verifier::external_body]
fn serialize_text_list(l: &Vec<String>) -> (r: Vec<u8>)
    ensures
        r@ == text_list_layout(texts(l@)),
{
    bincode2::serialize(l).unwrap()
}

/// `bincode2::deserialize` to a `String`. It reads a string from the front of
/// `data` and ignores what follows. It fails when `data` has not eight bytes of
/// length and then that many bytes of valid UTF-8, that is, when `data` begins
/// with no string's layout.
#[verifier::external_body]
fn deserialize_text(data: &[u8]) -> (r: Option<String>)
    ensures
        r is Some ==> text_layout(r->0@).is_prefix_of(data@),
        r is None ==> forall|s: Seq<char>| !(#[trigger] text_layout(s)).is_prefix_of(data@),
{
    bincode2::deserialize::<String>(data).ok()
}

/// `bincode2::deserialize` to a `Vec<u8>`. It reads a length and that many
/// bytes from the front of `data`, and fails when `data` is too short for them.
#[verifier::external_body]
fn deserialize_blob(data: &[u8]) -> (r: Option<Vec<u8>>)
    ensures
        r is Some ==> blob_layout(r->0@).is_prefix_of(data@),
        r is None ==> forall|b: Seq<u8>| !(#[trigger] blob_layout(b)).is_prefix_of(data@),
{
    bincode2::deserialize::<Vec<u8>>(data).ok()
}

/// `bincode2::deserialize` to an `Option<String>`. It reads one byte, which
/// must be 0 or 1, and after a 1 a string. The outer `Option` of the result says
/// whether reading succeeded.
#[verifier::external_body]
fn deserialize_optional_text(data: &[u8]) -> (r: Option<Option<String>>)
    ensures
        r is Some ==> optional_text_layout(optional_text(r->0)).is_prefix_of(data@),
        r is None ==> forall|o: Option<Seq<char>>|
            !(#[trigger] optional_text_layout(o)).is_prefix_of(data@),
{
    bincode2::deserialize::<Option<String>>(data).ok()
}

/// `bincode2::deserialize` to a `Vec<String>`. It reads a count and that many
/// strings from the front of `data`, and fails when one of them cannot be read.
#[verifier::external_body]
fn deserialize_text_list(data: &[u8]) -> (r: Option<Vec<String>>)
    ensures
        r is Some ==> text_list_layout(texts(r->0@)).is_prefix_of(data@),
        r is None ==> forall|l: Seq<Seq<char>>|
            !(#[trigger] text_list_layout(l)).is_prefix_of(data@),
{
    bincode2::deserialize::<Vec<String>>(data).ok()
}

/// Appends the index of a variant.
fn put_tag(out: &mut Vec<u8>, index: u32)
    ensures
        final(out)@ == old(out)@ + tag(index as nat),
{
    let b0: u8 = (index % 256) as u8;
    let b1: u8 = ((index / 256) % 256) as u8;
    let b2: u8 = ((index / 65536) % 256) as u8;
    let b3: u8 = ((index / 16777216) % 256) as u8;
    out.push(b0);
    out.push(b1);
    out.push(b2);
    out.push(b3);
    proof {
        reveal_with_fuel(le_bytes, 5);
        let n = index as nat;
        assert(n / 256 / 256 == n / 65536);
        assert(n / 256 / 256 / 256 == n / 16777216);
        assert(tag(n) =~= seq![b0, b1, b2, b3]);
        assert(out@ =~= old(out)@ + tag(n));
    }
}

/// Reads the index of a variant from the front of `data`.
fn take_tag(data: &[u8]) -> (r: Option<u32>)
    ensures
        r is Some <==> data@.len() >= 4,
        r is Some ==> r->0 as nat == le_value(data@.subrange(0, 4)),
{
    if data.len() < 4 {
        return None;
    }
    let b0: u32 = data[0] as u32;
    let b1: u32 = data[1] as u32;
    let b2: u32 = data[2] as u32;
    let b3: u32 = data[3] as u32;
    let value: u32 = b0 + 256 * b1 + 65536 * b2 + 16777216 * b3;
    proof {
        let s = data@.subrange(0, 4);
        let s1 = s.drop_first();
        let s2 = s1.drop_first();
        let s3 = s2.drop_first();
        let s4 = s3.drop_first();
        assert(s4.len() == 0);
        assert(le_value(s4) == 0);
        assert(le_value(s3) == s3[0] as nat + 256 * le_value(s4));
        assert(le_value(s2) == s2[0] as nat + 256 * le_value(s3));
        assert(le_value(s1) == s1[0] as nat + 256 * le_value(s2));
        assert(le_value(s) == s[0] as nat + 256 * le_value(s1));
    }
    Some(value)
}

/// Appends `part` to `out`.
fn put(out: &mut Vec<u8>, part: Vec<u8>)
    ensures
        final(out)@ == old(out)@ + part@,
{
    let mut part = part;
    out.append(&mut part);
}

/// Appends a user message as it stands on the wire.
fn encode_user(m: &User, out: &mut Vec<u8>)
    ensures
        final(out)@ == old(out)@ + user_wire(m@),
{
    match m {
        User::Auth { nick } => {
            put_tag(out, 0);
            put(out, serialize_text(nick));
        },
        User::Leave { message } => {
            put_tag(out, 1);
            put(out, serialize_optional_text(message));
        },
        User::RequestUserList => {
            put_tag(out, 2);
        },
        User::Text { message } => {
            put_tag(out, 3);
            put(out, serialize_text(message));
        },
        User::Voice { stream } => {
            put_tag(out, 4);
            put(out, serialize_blob(stream));
        },
    }
    assert(out@ =~= old(out)@ + user_wire(m@));
}

/// Appends a server message as it stands on the wire.
fn encode_server(m: &Server, out: &mut Vec<u8>)
    ensures
        final(out)@ == old(out)@ + server_wire(m@),
{
    match m {
        Server::Auth => {
            put_tag(out, 0);
        },
        Server::Notice { message } => {
            put_tag(out, 1);
            put(out, serialize_text(message));
        },
        Server::Refer { user, message } => {
            put_tag(out, 2);
            put(out, serialize_text(user));
            encode_user(message, out);
        },
        Server::UserList { users } => {
            put_tag(out, 3);
            put(out, serialize_text_list(users));
        },
    }
    assert(out@ =~= old(out)@ + server_wire(m@));
}

/// Appends an error message as it stands on the wire.
fn encode_error(e: &Error, out: &mut Vec<u8>)
    ensures
        final(out)@ == old(out)@ + error_wire(*e),
{
    match e {
        Error::AlreadyConnected => put_tag(out, 0),
        Error::NickNameInUse => put_tag(out, 1),
    }
}

/// No user message begins `data` when its index stands for a variant whose
/// body does not begin what follows the index.
proof fn lemma_no_user(data: Seq<u8>)
    requires
        data.len() >= 4,
        forall|u: UserView|
            user_sized(u) && user_index_is(u, le_value(data.subrange(0, 4)))
                ==> !(#[trigger] crate::layout::user_body(u)).is_prefix_of(data.skip(4)),
    ensures
        forall|u: UserView| user_sized(u) ==> !(#[trigger] user_wire(u)).is_prefix_of(data),
{
    assert forall|u: UserView| user_sized(u) implies !(#[trigger] user_wire(u)).is_prefix_of(
        data,
    ) by {
        if user_wire(u).is_prefix_of(data) {
            lemma_user_wire_parts(u);
            lemma_tagged(crate::layout::user_index(u), crate::layout::user_body(u), data);
        }
    }
}

/// Whether `index` is the index of the variant of `u`.
spec fn user_index_is(u: UserView, index: nat) -> bool {
    crate::layout::user_index(u) == index
}

/// Reads a user message from the front of `data`.
fn decode_user(data: &[u8]) -> (r: Option<User>)
    ensures
        r is Some ==> user_sized(r->0@) && user_wire(r->0@).is_prefix_of(data@),
        r is None ==> forall|u: UserView|
            user_sized(u) ==> !(#[trigger] user_wire(u)).is_prefix_of(data@),
{
    proof {
        lemma_radix_values();
    }
    let index = match take_tag(data) {
        Some(index) => index,
        None => {
            proof {
                assert forall|u: UserView| user_sized(u) implies !(#[trigger] user_wire(
                    u,
                )).is_prefix_of(data@) by {
                    lemma_user_wire_parts(u);
                    lemma_le_bytes_len(crate::layout::user_index(u), 4);
                }
            }
            return None;
        },
    };
    let rest = slice_subrange(data, 4, data.len());
    assert(rest@ == data@.skip(4));
    proof {
        lemma_le_bytes_of_value(data@.subrange(0, 4));
        assert(tag(index as nat) == data@.subrange(0, 4));
        assert(tag(index as nat).is_prefix_of(data@));
        lemma_le_bytes_len(index as nat, 4);
    }
    let found = if index == 0 {
        match deserialize_text(rest) {
            Some(nick) => Some(User::Auth { nick }),
            None => None,
        }
    } else if index == 1 {
        match deserialize_optional_text(rest) {
            Some(message) => Some(User::Leave { message }),
            None => None,
        }
    } else if index == 2 {
        assert(Seq::<u8>::empty().is_prefix_of(rest@));
        Some(User::RequestUserList)
    } else if index == 3 {
        match deserialize_text(rest) {
            Some(message) => Some(User::Text { message }),
            None => None,
        }
    } else if index == 4 {
        match deserialize_blob(rest) {
            Some(stream) => Some(User::Voice { stream }),
            None => None,
        }
    } else {
        None
    };
    proof {
        match found {
            Some(_) => {
                let view = found->0@;
                let body = crate::layout::user_body(view);
                assert(body.is_prefix_of(rest@));
                lemma_user_wire_parts(view);
                lemma_prefix_split(tag(index as nat), body, data@);
                lemma_user_sized_by_length(view);
            },
            None => {
                lemma_no_user(data@);
            },
        }
    }
    found
}

/// Whether `index` is the index of the variant of `m`.
spec fn server_index_is(m: ServerView, index: nat) -> bool {
    crate::layout::server_index(m) == index
}

/// No server message begins `data` when its index stands for a variant whose
/// body does not begin what follows the index.
proof fn lemma_no_server(data: Seq<u8>)
    requires
        data.len() >= 4,
        forall|m: ServerView|
            server_sized(m) && server_index_is(m, le_value(data.subrange(0, 4)))
                ==> !(#[trigger] crate::layout::server_body(m)).is_prefix_of(data.skip(4)),
    ensures
        forall|m: ServerView|
            server_sized(m) ==> !(#[trigger] server_wire(m)).is_prefix_of(data),
{
    assert forall|m: ServerView| server_sized(m) implies !(#[trigger] server_wire(
        m,
    )).is_prefix_of(data) by {
        if server_wire(m).is_prefix_of(data) {
            lemma_server_wire_parts(m);
            lemma_tagged(crate::layout::server_index(m), crate::layout::server_body(m), data);
        }
    }
}

/// Reads a relayed user message: the nick of its sender, then the message.
fn decode_refer(data: &[u8]) -> (r: Option<Server>)
    ensures
        r is Some ==> r->0@ is Refer && server_sized(r->0@) && crate::layout::server_body(
            r->0@,
        ).is_prefix_of(data@),
        r is None ==> forall|m: ServerView|
            m is Refer && server_sized(m) ==> !(#[trigger] crate::layout::server_body(
                m,
            )).is_prefix_of(data@),
{
    let user = match deserialize_text(data) {
        Some(user) => user,
        None => {
            proof {
                assert forall|m: ServerView| m is Refer && server_sized(m) implies !(
                #[trigger] crate::layout::server_body(m)).is_prefix_of(data@) by {
                    lemma_prefix_split(
                        text_layout(m->Refer_user),
                        user_wire(m->Refer_message),
                        data@,
                    );
                }
            }
            return None;
        },
    };
    let ghost head = text_layout(user@);
    proof {
        lemma_le_bytes_len(vstd::utf8::encode_utf8(user@).len(), 8);
        lemma_radix_values();
    }
    let total = data.len();
    let ghost bytes = vstd::utf8::encode_utf8(user@);
    assert(head.len() == 8 + bytes.len() && head.len() <= total);
    let used: usize = 8 + user.as_str().len();
    assert(used == head.len());
    let rest = slice_subrange(data, used, total);
    assert(rest@ == data@.skip(used as int));
    match decode_user(rest) {
        Some(message) => {
            proof {
                lemma_prefix_split(head, user_wire(message@), data@);
            }
            Some(Server::Refer { user, message })
        },
        None => {
            proof {
                assert forall|m: ServerView| m is Refer && server_sized(m) implies !(
                #[trigger] crate::layout::server_body(m)).is_prefix_of(data@) by {
                    let other = m->Refer_user;
                    lemma_prefix_split(text_layout(other), user_wire(m->Refer_message), data@);
                    if text_layout(other).is_prefix_of(data@) {
                        crate::layout::lemma_text_unique(other, user@, data@);
                    }
                }
            }
            None
        },
    }
}

/// Reads a server message from the front of `data`.
fn decode_server(data: &[u8]) -> (r: Option<Server>)
    ensures
        r is Some ==> server_sized(r->0@) && server_wire(r->0@).is_prefix_of(data@),
        r is None ==> forall|m: ServerView|
            server_sized(m) ==> !(#[trigger] server_wire(m)).is_prefix_of(data@),
{
    proof {
        lemma_radix_values();
    }
    let index = match take_tag(data) {
        Some(index) => index,
        None => {
            proof {
                assert forall|m: ServerView| server_sized(m) implies !(#[trigger] server_wire(
                    m,
                )).is_prefix_of(data@) by {
                    lemma_server_wire_parts(m);
                    lemma_le_bytes_len(crate::layout::server_index(m), 4);
                }
            }
            return None;
        },
    };
    let rest = slice_subrange(data, 4, data.len());
    assert(rest@ == data@.skip(4));
    proof {
        lemma_le_bytes_of_value(data@.subrange(0, 4));
        assert(tag(index as nat) == data@.subrange(0, 4));
        assert(tag(index as nat).is_prefix_of(data@));
        lemma_le_bytes_len(index as nat, 4);
    }
    let found = if index == 0 {
        assert(Seq::<u8>::empty().is_prefix_of(rest@));
        Some(Server::Auth)
    } else if index == 1 {
        match deserialize_text(rest) {
            Some(message) => Some(Server::Notice { message }),
            None => None,
        }
    } else if index == 2 {
        decode_refer(rest)
    } else if index == 3 {
        match deserialize_text_list(rest) {
            Some(users) => Some(Server::UserList { users }),
            None => None,
        }
    } else {
        None
    };
    proof {
        match found {
            Some(_) => {
                let view = found->0@;
                let body = crate::layout::server_body(view);
                assert(body.is_prefix_of(rest@));
                lemma_server_wire_parts(view);
                lemma_prefix_split(tag(index as nat), body, data@);
                lemma_server_sized_by_length(view);
            },
            None => {
                lemma_no_server(data@);
            },
        }
    }
    found
}

/// Reads an error message from the front of `data`.
fn decode_error(data: &[u8]) -> (r: Option<Error>)
    ensures
        r is Some ==> error_wire(r->0).is_prefix_of(data@),
        r is None ==> forall|e: Error| !(#[trigger] error_wire(e)).is_prefix_of(data@),
{
    proof {
        lemma_radix_values();
    }
    let index = match take_tag(data) {
        Some(index) => index,
        None => {
            proof {
                assert forall|e: Error| !(#[trigger] error_wire(e)).is_prefix_of(data@) by {
                    lemma_error_wire_parts(e);
                    lemma_le_bytes_len(crate::layout::error_index(e), 4);
                }
            }
            return None;
        },
    };
    proof {
        lemma_le_bytes_of_value(data@.subrange(0, 4));
        assert(tag(index as nat) == data@.subrange(0, 4));
        assert(tag(index as nat).is_prefix_of(data@));
        assert forall|e: Error| #[trigger] error_wire(e).is_prefix_of(data@) implies index
            == crate::layout::error_index(e) by {
            lemma_error_wire_parts(e);
            lemma_tagged(crate::layout::error_index(e), Seq::empty(), data@);
        }
    }
    if index == 0 {
        Some(Error::AlreadyConnected)
    } else if index == 1 {
        Some(Error::NickNameInUse)
    } else {
        None
    }
}

impl Message {
    /// The bytes that stand for the message on the wire.
    pub fn to_bytes(&self) -> (r: Vec<u8>)
        ensures
            r@ == wire(self@),
            sized(self@),
    {
        let mut out: Vec<u8> = Vec::new();
        match self {
            Message::User(m) => {
                put_tag(&mut out, 0);
                encode_user(m, &mut out);
            },
            Message::Server(m) => {
                put_tag(&mut out, 1);
                encode_server(m, &mut out);
            },
            Message::Error(e) => {
                put_tag(&mut out, 2);
                encode_error(e, &mut out);
            },
        }
        assert(out@ =~= wire(self@));
        let length = out.len();
        proof {
            lemma_radix_values();
            assert(wire(self@).len() == length);
            lemma_sized_by_length(self@);
        }
        out
    }

    /// The message that `data` begins with. Bytes after it are ignored. `None`
    /// when `data` begins with no message.
    pub fn from_bytes(data: &[u8]) -> (r: Option<Self>)
        ensures
            r is Some ==> parse(data@) == Some(r->0@),
            r is None ==> parse(data@) is None,
    {
        proof {
            lemma_radix_values();
        }
        let index = match take_tag(data) {
            Some(index) => index,
            None => {
                proof {
                    assert forall|m: MessageView| sized(m) implies !(#[trigger] wire(
                        m,
                    )).is_prefix_of(data@) by {
                        lemma_wire_parts(m);
                        lemma_le_bytes_len(crate::layout::message_index(m), 4);
                    }
                }
                return None;
            },
        };
        let rest = slice_subrange(data, 4, data.len());
        assert(rest@ == data@.skip(4));
        proof {
            lemma_le_bytes_of_value(data@.subrange(0, 4));
            assert(tag(index as nat) == data@.subrange(0, 4));
            assert(tag(index as nat).is_prefix_of(data@));
            lemma_le_bytes_len(index as nat, 4);
        }
        let found = if index == 0 {
            match decode_user(rest) {
                Some(m) => Some(Message::User(m)),
                None => None,
            }
        } else if index == 1 {
            match decode_server(rest) {
                Some(m) => Some(Message::Server(m)),
                None => None,
            }
        } else if index == 2 {
            match decode_error(rest) {
                Some(e) => Some(Message::Error(e)),
                None => None,
            }
        } else {
            None
        };
        proof {
            match found {
                Some(_) => {
                    let view = found->0@;
                    lemma_wire_parts(view);
                    lemma_prefix_split(
                        tag(index as nat),
                        crate::layout::message_body(view),
                        data@,
                    );
                    lemma_parse_found(data@, view);
                },
                None => {
                    assert forall|m: MessageView| sized(m) implies !(#[trigger] wire(
                        m,
                    )).is_prefix_of(data@) by {
                        if wire(m).is_prefix_of(data@) {
                            lemma_wire_parts(m);
                            lemma_tagged(
                                crate::layout::message_index(m),
                                crate::layout::message_body(m),
                                data@,
                            );
                        }
                    }
                },
            }
        }
        found
    }
}

} // verus!
