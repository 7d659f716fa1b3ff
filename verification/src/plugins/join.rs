//! `^join <node> <domain>`: the owner sends the bot into a room.
use vstd::prelude::*;
use crate::jid::{Jid, JidView};
use crate::sendable::SendMessage;
use crate::text::{has_prefix, split_words, starts_with, words};

verus! {

/// The one account that may send the bot into rooms.
pub open spec fn owner() -> JidView {
    JidView { node: Some("dean4devil"@), domain: "paranoidlabs.org"@, resource: None }
}

/// `msg` is a `^join` command from the owner (any resource).
pub open spec fn is_owner_join(msg: SendMessage) -> bool {
    &&& msg.body matches Some(b) && starts_with(b@, "^join"@)
    &&& msg.from matches Some(f) && f@.bare() == owner()
}

/// The room occupant that a `^join` command names: `node@domain/gnutbot`,
/// taken from the first two words after the sixth character of the body.
pub open spec fn join_target(msg: SendMessage) -> Option<JidView> {
    if is_owner_join(msg) {
        let w = words(msg.body.unwrap()@.skip(6));
        if w.len() >= 2 {
            Some(JidView { node: Some(w[0]), domain: w[1], resource: Some("gnutbot"@) })
        } else {
            None
        }
    } else {
        None
    }
}

/// Cutting the body of an owner's `^join` at byte 6 does not fail: the body
/// goes on after `^join` with a one-byte (ASCII) character.
pub open spec fn join_safe(msg: SendMessage) -> bool {
    is_owner_join(msg) ==> msg.body.unwrap()@.len() >= 6 && (msg.body.unwrap()@[5] as u32) < 0x80
}

/// A message without a body, or whose body does not start with `^join`,
/// names no room, whoever sends it.
pub proof fn law_only_join_commands_name_a_room(msg: SendMessage)
    ensures
        (msg.body matches Some(b) && !starts_with(b@, "^join"@)) ==> join_target(msg) is None,
        msg.body is None ==> join_target(msg) is None,
{
}

/// Only the owner can send the bot into a room, and the bot always enters
/// under the nickname `gnutbot`.
pub proof fn law_only_the_owner_is_obeyed(msg: SendMessage)
    ensures
        join_target(msg) is Some ==> (msg.from matches Some(f) && f@.bare() == owner()),
        join_target(msg) matches Some(j) ==> j.resource == Some("gnutbot"@),
{
}

/// The join plugin.
pub struct Join;

impl Join {
    pub fn new() -> Join {
        Join
    }

    /// Whether answering `message` cannot fail ([`join_safe`]).
    pub fn can_answer(message: &SendMessage) -> (r: bool)
        ensures
            r == join_safe(*message),
    {
        if !Join::from_owner(message) {
            return true;
        }
        let b = match &message.body {
            Some(b) => b,
            None => {
                return true;
            },
        };
        b.unicode_len() >= 6 && (b.get_char(5) as u32) < 0x80
    }

    fn from_owner(message: &SendMessage) -> (r: bool)
        ensures
            r == is_owner_join(*message),
    {
        match (&message.body, &message.from) {
            (Some(body), Some(from)) => {
                if !has_prefix(body.as_str(), "^join") {
                    return false;
                }
                let owner = Jid::bare("dean4devil", "paranoidlabs.org");
                from.clone().into_bare_jid().same(&owner)
            },
            _ => false,
        }
    }

    /// The room occupant to announce the bot's presence to, for a `^join`
    /// command from the owner that names a node and a domain.
    pub fn call(&mut self, message: SendMessage) -> (r: Option<Jid>)
        requires
            join_safe(message),
        ensures
            match r {
                Some(j) => join_target(message) == Some(j@),
                None => join_target(message) is None,
            },
    {
        if !Join::from_owner(&message) {
            return None;
        }
        let body = message.body.unwrap();
        let n = body.unicode_len();
        let rest = body.as_str().substring_char(6, n);
        assert(body@.subrange(6, n as int) =~= body@.skip(6));
        let chan = split_words(rest);
        if chan.len() >= 2 {
            Some(Jid::full(chan[0].as_str(), chan[1].as_str(), "gnutbot"))
        } else {
            None
        }
    }
}

} // verus!
