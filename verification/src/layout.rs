//! The byte layout of messages on the wire, as mathematics.
//!
//! Integers are little-endian and of fixed width. A string is its UTF-8 length
//! in eight bytes, then its UTF-8 bytes. A list is its length in eight bytes,
//! then its items. An absent value is the byte 0, a present one the byte 1 and
//! the value. A variant of an enum is its index in four bytes, then its fields.

use vstd::prelude::*;
use vstd::utf8::{encode_utf8, encode_utf8_decode_utf8};
use crate::message::{Error, MessageView, ServerView, UserView};

verus! {

/// 256 to the power `width`.
pub open spec fn radix(width: nat) -> nat
    decreases width,
{
    if width == 0 {
        1
    } else {
        256 * radix((width - 1) as nat)
    }
}

/// The `width` low base-256 digits of `n`, least significant first.
pub open spec fn le_bytes(n: nat, width: nat) -> Seq<u8>
    decreases width,
{
    if width == 0 {
        Seq::empty()
    } else {
        seq![(n % 256) as u8] + le_bytes(n / 256, (width - 1) as nat)
    }
}

/// The number whose base-256 digits, least significant first, are `bytes`.
pub open spec fn le_value(bytes: Seq<u8>) -> nat
    decreases bytes.len(),
{
    if bytes.len() == 0 {
        0
    } else {
        bytes[0] as nat + 256 * le_value(bytes.drop_first())
    }
}

/// Whether a length can be written in eight bytes.
pub open spec fn fits(n: nat) -> bool {
    n < radix(8)
}

/// The index of an enum's variant.
pub open spec fn tag(index: nat) -> Seq<u8> {
    le_bytes(index, 4)
}

/// A string on the wire.
pub open spec fn text_layout(s: Seq<char>) -> Seq<u8> {
    le_bytes(encode_utf8(s).len(), 8) + encode_utf8(s)
}

/// A byte string on the wire.
pub open spec fn blob_layout(b: Seq<u8>) -> Seq<u8> {
    le_bytes(b.len(), 8) + b
}

/// An optional string on the wire.
pub open spec fn optional_text_layout(o: Option<Seq<char>>) -> Seq<u8> {
    match o {
        None => seq![0u8],
        Some(s) => seq![1u8] + text_layout(s),
    }
}

/// Strings on the wire, one after the other.
pub open spec fn texts_layout(l: Seq<Seq<char>>) -> Seq<u8>
    decreases l.len(),
{
    if l.len() == 0 {
        Seq::empty()
    } else {
        text_layout(l[0]) + texts_layout(l.drop_first())
    }
}

/// A list of strings on the wire.
pub open spec fn text_list_layout(l: Seq<Seq<char>>) -> Seq<u8> {
    le_bytes(l.len(), 8) + texts_layout(l)
}

/// A user message on the wire.
pub open spec fn user_wire(m: UserView) -> Seq<u8> {
    match m {
        UserView::Auth { nick } => tag(0) + text_layout(nick),
        UserView::Leave { message } => tag(1) + optional_text_layout(message),
        UserView::RequestUserList => tag(2),
        UserView::Text { message } => tag(3) + text_layout(message),
        UserView::Voice { stream } => tag(4) + blob_layout(stream),
    }
}

/// A server message on the wire.
pub open spec fn server_wire(m: ServerView) -> Seq<u8> {
    match m {
        ServerView::Auth => tag(0),
        ServerView::Notice { message } => tag(1) + text_layout(message),
        ServerView::Refer { user, message } => tag(2) + text_layout(user) + user_wire(message),
        ServerView::UserList { users } => tag(3) + text_list_layout(users),
    }
}

/// An error message on the wire.
pub open spec fn error_wire(e: Error) -> Seq<u8> {
    match e {
        Error::AlreadyConnected => tag(0),
        Error::NickNameInUse => tag(1),
    }
}

/// A message on the wire.
pub open spec fn wire(m: MessageView) -> Seq<u8> {
    match m {
        MessageView::User(u) => tag(0) + user_wire(u),
        MessageView::Server(s) => tag(1) + server_wire(s),
        MessageView::Error(e) => tag(2) + error_wire(e),
    }
}

/// Whether the UTF-8 length of a string can be written in eight bytes.
pub open spec fn text_sized(s: Seq<char>) -> bool {
    fits(encode_utf8(s).len())
}

/// Whether every string of a list is sized, and the list's length too.
pub open spec fn text_list_sized(l: Seq<Seq<char>>) -> bool {
    &&& fits(l.len())
    &&& forall|i: int| 0 <= i < l.len() ==> text_sized(#[trigger] l[i])
}

/// Whether every length in a user message can be written in eight bytes.
pub open spec fn user_sized(m: UserView) -> bool {
    match m {
        UserView::Auth { nick } => text_sized(nick),
        UserView::Leave { message } => message is Some ==> text_sized(message->0),
        UserView::RequestUserList => true,
        UserView::Text { message } => text_sized(message),
        UserView::Voice { stream } => fits(stream.len()),
    }
}

/// Whether every length in a server message can be written in eight bytes.
pub open spec fn server_sized(m: ServerView) -> bool {
    match m {
        ServerView::Auth => true,
        ServerView::Notice { message } => text_sized(message),
        ServerView::Refer { user, message } => text_sized(user) && user_sized(message),
        ServerView::UserList { users } => text_list_sized(users),
    }
}

/// Whether every length in a message can be written in eight bytes. Every
/// message that a machine holds is sized: none has a string of 2^64 bytes.
pub open spec fn sized(m: MessageView) -> bool {
    match m {
        MessageView::User(u) => user_sized(u),
        MessageView::Server(s) => server_sized(s),
        MessageView::Error(_) => true,
    }
}

/// The message that `data` begins with, if it begins with one. Bytes after the
/// message are not looked at.
pub open spec fn parse(data: Seq<u8>) -> Option<MessageView> {
    if exists|m: MessageView| sized(m) && wire(m).is_prefix_of(data) {
        Some(choose|m: MessageView| sized(m) && wire(m).is_prefix_of(data))
    } else {
        None
    }
}

/// A number is written in as many bytes as asked for.
pub proof fn lemma_le_bytes_len(n: nat, width: nat)
    ensures
        le_bytes(n, width).len() == width,
    decreases width,
{
    if width > 0 {
        lemma_le_bytes_len(n / 256, (width - 1) as nat);
    }
}

/// Reading back the digits of a number gives the number, if it had room.
pub proof fn lemma_le_value_of_bytes(n: nat, width: nat)
    requires
        n < radix(width),
    ensures
        le_value(le_bytes(n, width)) == n,
    decreases width,
{
    if width > 0 {
        let rest = le_bytes(n / 256, (width - 1) as nat);
        lemma_le_value_of_bytes(n / 256, (width - 1) as nat);
        assert(le_bytes(n, width).drop_first() =~= rest);
    }
}

/// Writing the number that digits stand for gives the digits.
pub proof fn lemma_le_bytes_of_value(bytes: Seq<u8>)
    ensures
        le_bytes(le_value(bytes), bytes.len()) == bytes,
    decreases bytes.len(),
{
    if bytes.len() > 0 {
        lemma_le_bytes_of_value(bytes.drop_first());
        let n = le_value(bytes);
        assert(n % 256 == bytes[0] as nat);
        assert(n / 256 == le_value(bytes.drop_first()));
        assert(le_bytes(n, bytes.len()) =~= bytes);
    } else {
        assert(le_bytes(0, 0) =~= bytes);
    }
}

/// The radix of four bytes and of eight, written out.
pub proof fn lemma_radix_values()
    ensures
        radix(4) == 0x1_0000_0000,
        radix(8) == 0x1_0000_0000_0000_0000,
{
    reveal_with_fuel(radix, 9);
}

/// A sequence starts with `p + q` exactly when it starts with `p` and goes on
/// with `q`.
pub proof fn lemma_prefix_split(p: Seq<u8>, q: Seq<u8>, d: Seq<u8>)
    ensures
        (p + q).is_prefix_of(d) <==> p.is_prefix_of(d) && q.is_prefix_of(d.skip(p.len() as int)),
{
    if (p + q).is_prefix_of(d) {
        assert(p =~= d.subrange(0, p.len() as int)) by {
            assert forall|i: int| 0 <= i < p.len() implies p[i] == d[i] by {
                assert((p + q)[i] == d[i]);
            }
        }
        assert(q =~= d.skip(p.len() as int).subrange(0, q.len() as int)) by {
            assert forall|i: int| 0 <= i < q.len() implies q[i] == d[p.len() + i] by {
                assert((p + q)[p.len() + i] == d[p.len() + i]);
            }
        }
    }
    if p.is_prefix_of(d) && q.is_prefix_of(d.skip(p.len() as int)) {
        assert((p + q) =~= d.subrange(0, (p + q).len() as int)) by {
            assert forall|i: int| 0 <= i < (p + q).len() implies (p + q)[i] == d[i] by {
                if i < p.len() {
                    assert(p[i] == d.subrange(0, p.len() as int)[i]);
                } else {
                    assert(q[i - p.len()] == d.skip(p.len() as int).subrange(0, q.len() as int)[i
                        - p.len()]);
                }
            }
        }
    }
}

/// Two numbers with room that are written alike are the same number.
pub proof fn lemma_le_bytes_unique(a: nat, b: nat, width: nat)
    requires
        a < radix(width),
        b < radix(width),
        le_bytes(a, width) == le_bytes(b, width),
    ensures
        a == b,
{
    lemma_le_value_of_bytes(a, width);
    lemma_le_value_of_bytes(b, width);
}

/// Two numbers with room whose digits both begin a sequence are the same.
pub proof fn lemma_le_prefix_unique(a: nat, b: nat, width: nat, d: Seq<u8>)
    requires
        a < radix(width),
        b < radix(width),
        le_bytes(a, width).is_prefix_of(d),
        le_bytes(b, width).is_prefix_of(d),
    ensures
        a == b,
{
    lemma_le_bytes_len(a, width);
    lemma_le_bytes_len(b, width);
    assert(le_bytes(a, width) =~= le_bytes(b, width));
    lemma_le_bytes_unique(a, b, width);
}

/// A sequence begins with at most one sized string.
pub proof fn lemma_text_unique(a: Seq<char>, b: Seq<char>, d: Seq<u8>)
    requires
        text_sized(a),
        text_sized(b),
        text_layout(a).is_prefix_of(d),
        text_layout(b).is_prefix_of(d),
    ensures
        a == b,
{
    let ea = encode_utf8(a);
    let eb = encode_utf8(b);
    lemma_prefix_split(le_bytes(ea.len(), 8), ea, d);
    lemma_prefix_split(le_bytes(eb.len(), 8), eb, d);
    lemma_le_prefix_unique(ea.len(), eb.len(), 8, d);
    lemma_le_bytes_len(ea.len(), 8);
    lemma_le_bytes_len(eb.len(), 8);
    assert(ea =~= eb);
    encode_utf8_decode_utf8(a);
    encode_utf8_decode_utf8(b);
}

/// A sequence begins with at most one sized byte string.
pub proof fn lemma_blob_unique(a: Seq<u8>, b: Seq<u8>, d: Seq<u8>)
    requires
        fits(a.len()),
        fits(b.len()),
        blob_layout(a).is_prefix_of(d),
        blob_layout(b).is_prefix_of(d),
    ensures
        a == b,
{
    lemma_prefix_split(le_bytes(a.len(), 8), a, d);
    lemma_prefix_split(le_bytes(b.len(), 8), b, d);
    lemma_le_prefix_unique(a.len(), b.len(), 8, d);
    lemma_le_bytes_len(a.len(), 8);
    lemma_le_bytes_len(b.len(), 8);
    assert(a =~= b);
}

/// A sequence begins with at most one sized optional string.
pub proof fn lemma_optional_text_unique(a: Option<Seq<char>>, b: Option<Seq<char>>, d: Seq<u8>)
    requires
        a is Some ==> text_sized(a->0),
        b is Some ==> text_sized(b->0),
        optional_text_layout(a).is_prefix_of(d),
        optional_text_layout(b).is_prefix_of(d),
    ensures
        a == b,
{
    assert(optional_text_layout(a)[0] == d[0]);
    assert(optional_text_layout(b)[0] == d[0]);
    if a is Some {
        lemma_prefix_split(seq![1u8], text_layout(a->0), d);
        lemma_prefix_split(seq![1u8], text_layout(b->0), d);
        lemma_text_unique(a->0, b->0, d.skip(1));
    }
}

/// Each string of a run takes eight bytes at least.
pub proof fn lemma_texts_layout_len(l: Seq<Seq<char>>)
    ensures
        texts_layout(l).len() >= 8 * l.len(),
    decreases l.len(),
{
    if l.len() > 0 {
        lemma_texts_layout_len(l.drop_first());
        lemma_le_bytes_len(encode_utf8(l[0]).len(), 8);
    }
}

/// A sequence begins with at most one run of sized strings of a given length.
pub proof fn lemma_texts_unique(a: Seq<Seq<char>>, b: Seq<Seq<char>>, d: Seq<u8>)
    requires
        a.len() == b.len(),
        forall|i: int| 0 <= i < a.len() ==> text_sized(#[trigger] a[i]),
        forall|i: int| 0 <= i < b.len() ==> text_sized(#[trigger] b[i]),
        texts_layout(a).is_prefix_of(d),
        texts_layout(b).is_prefix_of(d),
    ensures
        a == b,
    decreases a.len(),
{
    if a.len() == 0 {
        assert(a =~= b);
    } else {
        lemma_prefix_split(text_layout(a[0]), texts_layout(a.drop_first()), d);
        lemma_prefix_split(text_layout(b[0]), texts_layout(b.drop_first()), d);
        lemma_text_unique(a[0], b[0], d);
        let rest = d.skip(text_layout(a[0]).len() as int);
        assert forall|i: int| 0 <= i < a.drop_first().len() implies text_sized(
            #[trigger] a.drop_first()[i],
        ) by {
            assert(a.drop_first()[i] == a[i + 1]);
        }
        assert forall|i: int| 0 <= i < b.drop_first().len() implies text_sized(
            #[trigger] b.drop_first()[i],
        ) by {
            assert(b.drop_first()[i] == b[i + 1]);
        }
        lemma_texts_unique(a.drop_first(), b.drop_first(), rest);
        assert(a =~= seq![a[0]] + a.drop_first());
        assert(b =~= seq![b[0]] + b.drop_first());
    }
}

/// A sequence begins with at most one sized list of strings.
pub proof fn lemma_text_list_unique(a: Seq<Seq<char>>, b: Seq<Seq<char>>, d: Seq<u8>)
    requires
        text_list_sized(a),
        text_list_sized(b),
        text_list_layout(a).is_prefix_of(d),
        text_list_layout(b).is_prefix_of(d),
    ensures
        a == b,
{
    lemma_prefix_split(le_bytes(a.len(), 8), texts_layout(a), d);
    lemma_prefix_split(le_bytes(b.len(), 8), texts_layout(b), d);
    lemma_le_prefix_unique(a.len(), b.len(), 8, d);
    lemma_le_bytes_len(a.len(), 8);
    lemma_le_bytes_len(b.len(), 8);
    lemma_texts_unique(a, b, d.skip(8));
}

/// What follows a variant's index, and that the index is the one written.
pub proof fn lemma_tagged(index: nat, body: Seq<u8>, d: Seq<u8>)
    requires
        index < radix(4),
        (tag(index) + body).is_prefix_of(d),
    ensures
        d.len() >= 4,
        le_value(d.subrange(0, 4)) == index,
        body.is_prefix_of(d.skip(4)),
{
    lemma_le_bytes_len(index, 4);
    lemma_prefix_split(tag(index), body, d);
    lemma_le_value_of_bytes(index, 4);
    assert(d.subrange(0, 4) =~= tag(index));
}

/// The index that a user message is written with.
pub open spec fn user_index(m: UserView) -> nat {
    match m {
        UserView::Auth { .. } => 0,
        UserView::Leave { .. } => 1,
        UserView::RequestUserList => 2,
        UserView::Text { .. } => 3,
        UserView::Voice { .. } => 4,
    }
}

/// What follows the index of a user message.
pub open spec fn user_body(m: UserView) -> Seq<u8> {
    match m {
        UserView::Auth { nick } => text_layout(nick),
        UserView::Leave { message } => optional_text_layout(message),
        UserView::RequestUserList => Seq::empty(),
        UserView::Text { message } => text_layout(message),
        UserView::Voice { stream } => blob_layout(stream),
    }
}

/// The index that a server message is written with.
pub open spec fn server_index(m: ServerView) -> nat {
    match m {
        ServerView::Auth => 0,
        ServerView::Notice { .. } => 1,
        ServerView::Refer { .. } => 2,
        ServerView::UserList { .. } => 3,
    }
}

/// What follows the index of a server message.
pub open spec fn server_body(m: ServerView) -> Seq<u8> {
    match m {
        ServerView::Auth => Seq::empty(),
        ServerView::Notice { message } => text_layout(message),
        ServerView::Refer { user, message } => text_layout(user) + user_wire(message),
        ServerView::UserList { users } => text_list_layout(users),
    }
}

/// The index that an error message is written with.
pub open spec fn error_index(e: Error) -> nat {
    match e {
        Error::AlreadyConnected => 0,
        Error::NickNameInUse => 1,
    }
}

/// The index that a message is written with.
pub open spec fn message_index(m: MessageView) -> nat {
    match m {
        MessageView::User(_) => 0,
        MessageView::Server(_) => 1,
        MessageView::Error(_) => 2,
    }
}

/// What follows the index of a message.
pub open spec fn message_body(m: MessageView) -> Seq<u8> {
    match m {
        MessageView::User(u) => user_wire(u),
        MessageView::Server(s) => server_wire(s),
        MessageView::Error(e) => error_wire(e),
    }
}

/// A user message is its index, then its body.
pub proof fn lemma_user_wire_parts(m: UserView)
    ensures
        user_wire(m) == tag(user_index(m)) + user_body(m),
        user_index(m) < radix(4),
{
    lemma_radix_values();
    assert(tag(2) =~= tag(2) + Seq::<u8>::empty());
}

/// A server message is its index, then its body.
pub proof fn lemma_server_wire_parts(m: ServerView)
    ensures
        server_wire(m) == tag(server_index(m)) + server_body(m),
        server_index(m) < radix(4),
{
    lemma_radix_values();
    assert(tag(0) =~= tag(0) + Seq::<u8>::empty());
    match m {
        ServerView::Refer { user, message } => {
            assert(tag(2) + text_layout(user) + user_wire(message) =~= tag(2) + (text_layout(user)
                + user_wire(message)));
        },
        _ => {},
    }
}

/// An error message is its index and nothing more.
pub proof fn lemma_error_wire_parts(e: Error)
    ensures
        error_wire(e) == tag(error_index(e)) + Seq::<u8>::empty(),
        error_index(e) < radix(4),
{
    lemma_radix_values();
    assert(tag(0) =~= tag(0) + Seq::<u8>::empty());
    assert(tag(1) =~= tag(1) + Seq::<u8>::empty());
}

/// A message is its index, then its body.
pub proof fn lemma_wire_parts(m: MessageView)
    ensures
        wire(m) == tag(message_index(m)) + message_body(m),
        message_index(m) < radix(4),
{
    lemma_radix_values();
}

/// A sequence begins with at most one sized user message.
pub proof fn lemma_user_wire_unique(a: UserView, b: UserView, d: Seq<u8>)
    requires
        user_sized(a),
        user_sized(b),
        user_wire(a).is_prefix_of(d),
        user_wire(b).is_prefix_of(d),
    ensures
        a == b,
{
    lemma_user_wire_parts(a);
    lemma_user_wire_parts(b);
    lemma_tagged(user_index(a), user_body(a), d);
    lemma_tagged(user_index(b), user_body(b), d);
    let rest = d.skip(4);
    match a {
        UserView::Auth { nick } => {
            lemma_text_unique(nick, b->Auth_nick, rest);
        },
        UserView::Leave { message } => {
            lemma_optional_text_unique(message, b->Leave_message, rest);
        },
        UserView::RequestUserList => {},
        UserView::Text { message } => {
            lemma_text_unique(message, b->Text_message, rest);
        },
        UserView::Voice { stream } => {
            lemma_blob_unique(stream, b->stream, rest);
        },
    }
}

/// A sequence begins with at most one sized server message.
pub proof fn lemma_server_wire_unique(a: ServerView, b: ServerView, d: Seq<u8>)
    requires
        server_sized(a),
        server_sized(b),
        server_wire(a).is_prefix_of(d),
        server_wire(b).is_prefix_of(d),
    ensures
        a == b,
{
    lemma_server_wire_parts(a);
    lemma_server_wire_parts(b);
    lemma_tagged(server_index(a), server_body(a), d);
    lemma_tagged(server_index(b), server_body(b), d);
    let rest = d.skip(4);
    match a {
        ServerView::Auth => {},
        ServerView::Notice { message } => {
            lemma_text_unique(message, b->Notice_message, rest);
        },
        ServerView::Refer { user, message } => {
            let other_user = b->Refer_user;
            let other_message = b->Refer_message;
            lemma_prefix_split(text_layout(user), user_wire(message), rest);
            lemma_prefix_split(text_layout(other_user), user_wire(other_message), rest);
            lemma_text_unique(user, other_user, rest);
            lemma_user_wire_unique(
                message,
                other_message,
                rest.skip(text_layout(user).len() as int),
            );
        },
        ServerView::UserList { users } => {
            lemma_text_list_unique(users, b->users, rest);
        },
    }
}

/// A sequence of bytes begins with at most one sized message.
pub proof fn lemma_wire_unique(a: MessageView, b: MessageView, d: Seq<u8>)
    requires
        sized(a),
        sized(b),
        wire(a).is_prefix_of(d),
        wire(b).is_prefix_of(d),
    ensures
        a == b,
{
    lemma_wire_parts(a);
    lemma_wire_parts(b);
    lemma_tagged(message_index(a), message_body(a), d);
    lemma_tagged(message_index(b), message_body(b), d);
    let rest = d.skip(4);
    match a {
        MessageView::User(u) => {
            lemma_user_wire_unique(u, b->User_0, rest);
        },
        MessageView::Server(s) => {
            lemma_server_wire_unique(s, b->Server_0, rest);
        },
        MessageView::Error(e) => {
            lemma_error_wire_parts(e);
            lemma_error_wire_parts(b->Error_0);
            lemma_tagged(error_index(e), Seq::empty(), rest);
            lemma_tagged(error_index(b->Error_0), Seq::empty(), rest);
        },
    }
}

/// Reading what was written gives back the message, whatever follows it.
pub proof fn lemma_parse_wire(m: MessageView, rest: Seq<u8>)
    requires
        sized(m),
    ensures
        parse(wire(m) + rest) == Some(m),
{
    let d = wire(m) + rest;
    assert(wire(m) =~= d.subrange(0, wire(m).len() as int));
    assert(sized(m) && wire(m).is_prefix_of(d));
    let found = choose|x: MessageView| sized(x) && wire(x).is_prefix_of(d);
    lemma_wire_unique(found, m, d);
}

/// What `parse` finds is sized and begins the data, and nothing else does.
pub proof fn lemma_parse_found(data: Seq<u8>, m: MessageView)
    requires
        sized(m),
        wire(m).is_prefix_of(data),
    ensures
        parse(data) == Some(m),
{
    let found = choose|x: MessageView| sized(x) && wire(x).is_prefix_of(data);
    lemma_wire_unique(found, m, data);
}

/// Each string of a run is no longer than the run.
pub proof fn lemma_texts_bounded(l: Seq<Seq<char>>)
    ensures
        forall|i: int|
            0 <= i < l.len() ==> encode_utf8(#[trigger] l[i]).len() <= texts_layout(l).len(),
    decreases l.len(),
{
    if l.len() > 0 {
        lemma_texts_bounded(l.drop_first());
        assert forall|i: int| 0 <= i < l.len() implies encode_utf8(#[trigger] l[i]).len()
            <= texts_layout(l).len() by {
            if i > 0 {
                assert(l[i] == l.drop_first()[i - 1]);
            }
        }
    }
}

/// A user message whose bytes are fewer than 2^64 is sized.
pub proof fn lemma_user_sized_by_length(m: UserView)
    requires
        user_wire(m).len() < radix(8),
    ensures
        user_sized(m),
{
    match m {
        UserView::Auth { nick } => {
            lemma_le_bytes_len(encode_utf8(nick).len(), 8);
        },
        UserView::Leave { message } => {
            if message is Some {
                lemma_le_bytes_len(encode_utf8(message->0).len(), 8);
            }
        },
        UserView::RequestUserList => {},
        UserView::Text { message } => {
            lemma_le_bytes_len(encode_utf8(message).len(), 8);
        },
        UserView::Voice { stream } => {
            lemma_le_bytes_len(stream.len(), 8);
        },
    }
}

/// A server message whose bytes are fewer than 2^64 is sized.
pub proof fn lemma_server_sized_by_length(m: ServerView)
    requires
        server_wire(m).len() < radix(8),
    ensures
        server_sized(m),
{
    match m {
        ServerView::Auth => {},
        ServerView::Notice { message } => {
            lemma_le_bytes_len(encode_utf8(message).len(), 8);
        },
        ServerView::Refer { user, message } => {
            lemma_le_bytes_len(encode_utf8(user).len(), 8);
            lemma_user_sized_by_length(message);
        },
        ServerView::UserList { users } => {
            lemma_le_bytes_len(users.len(), 8);
            lemma_texts_layout_len(users);
            lemma_texts_bounded(users);
        },
    }
}

/// A message whose bytes are fewer than 2^64 is sized. Every message in
/// memory is: its bytes fit in memory too.
pub proof fn lemma_sized_by_length(m: MessageView)
    requires
        wire(m).len() < radix(8),
    ensures
        sized(m),
{
    match m {
        MessageView::User(u) => {
            lemma_user_sized_by_length(u);
        },
        MessageView::Server(s) => {
            lemma_server_sized_by_length(s);
        },
        MessageView::Error(_) => {},
    }
}

} // verus!
