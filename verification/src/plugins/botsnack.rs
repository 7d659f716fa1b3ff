//! `^goodbot` and `^botsnack`: the bot thanks for praise and snacks.
use vstd::prelude::*;
use crate::chance::RandomSource;
use crate::command::{answers, make_reply};
use crate::sendable::SendMessage;
use crate::text::{has_prefix, starts_with, string_views};

verus! {

/// The four answers to a snack.
pub open spec fn snack_replies() -> Seq<Seq<char>> {
    seq![
        "Thank you! >^.^<"@,
        "/me happily noms in the corner"@,
        "For me? :o"@,
        "^humansnack"@,
    ]
}

/// The reply text to `body` with the answers `replies`, when `draw` is the
/// random number that picks a snack answer.
pub open spec fn snack_answer(replies: Seq<Seq<char>>, body: Seq<char>, draw: u64) -> Option<
    Seq<char>,
> {
    if starts_with(body, "^goodbot"@) {
        Some(">^.^<"@)
    } else if starts_with(body, "^botsnack"@) {
        Some(replies[((draw as usize) as nat % replies.len()) as int])
    } else {
        None
    }
}

/// [`snack_answer`] for a message, which may have no body.
pub open spec fn snack_outcome(replies: Seq<Seq<char>>, msg: SendMessage, draw: u64) -> Option<
    Seq<char>,
> {
    match msg.body {
        Some(b) => snack_answer(replies, b@, draw),
        None => None,
    }
}

/// `msg` is a snack (and not praise), so answering it draws a random number.
pub open spec fn wants_snack_draw(msg: SendMessage) -> bool {
    msg.body matches Some(b) && !starts_with(b@, "^goodbot"@) && starts_with(b@, "^botsnack"@)
}

/// A list of answers that is never empty.
struct Answers {
    texts: Vec<String>,
}

impl Answers {
    #[verifier::type_invariant]
    closed spec fn not_empty(self) -> bool {
        self.texts@.len() > 0
    }
}

/// A snack is always answered with one of the snack answers; praise is
/// answered first when a body is both.
pub proof fn law_snack_answer_is_listed(replies: Seq<Seq<char>>, body: Seq<char>, draw: u64)
    requires
        replies.len() > 0,
        starts_with(body, "^botsnack"@),
        !starts_with(body, "^goodbot"@),
    ensures
        snack_answer(replies, body, draw) matches Some(t) && replies.contains(t),
{
    let i = ((draw as usize) as nat % replies.len()) as int;
    assert(0 <= i < replies.len());
}

/// Every body that starts with `^goodbot` is thanked with `>^.^<`, whatever
/// follows and whatever is drawn; a body that starts with neither
/// `^goodbot` nor `^botsnack` gets no answer.
pub proof fn law_praise_is_thanked(replies: Seq<Seq<char>>, body: Seq<char>, draw: u64)
    ensures
        starts_with(body, "^goodbot"@) ==> snack_answer(replies, body, draw) == Some(">^.^<"@),
        !starts_with(body, "^goodbot"@) && !starts_with(body, "^botsnack"@) ==> snack_answer(
            replies,
            body,
            draw,
        ) is None,
{
}

/// The snack plugin.
pub struct Snack {
    snackreplies: Answers,
    random: RandomSource,
}

impl Snack {
    /// The answers to a snack.
    pub closed spec fn replies(&self) -> Seq<Seq<char>> {
        string_views(self.snackreplies.texts@)
    }

    /// How many random numbers this plugin has drawn.
    pub closed spec fn draws(&self) -> nat {
        self.random.reads()
    }

    /// A snack plugin with the four answers of [`snack_replies`].
    pub fn new() -> (r: Self)
        ensures
            r.replies() == snack_replies(),
            r.draws() == 0,
    {
        let mut v: Vec<String> = Vec::new();
        v.push("Thank you! >^.^<".to_owned());
        v.push("/me happily noms in the corner".to_owned());
        v.push("For me? :o".to_owned());
        v.push("^humansnack".to_owned());
        assert(string_views(v@) =~= snack_replies());
        Snack { snackreplies: Answers { texts: v }, random: RandomSource::new() }
    }

    /// The answer to `message` when `draw` picks the snack answer.
    pub fn answer(&self, message: &SendMessage, draw: u64) -> (r: Option<SendMessage>)
        ensures
            answers(*message, r, snack_outcome(self.replies(), *message, draw)),
    {
        proof {
            use_type_invariant(&self.snackreplies);
        }
        let body = match &message.body {
            Some(b) => b,
            None => {
                return None;
            },
        };
        if has_prefix(body.as_str(), "^goodbot") {
            return Some(make_reply(message, ">^.^<".to_owned()));
        } else if has_prefix(body.as_str(), "^botsnack") {
            let idx = draw as usize;
            let clamped = idx % self.snackreplies.texts.len();
            return Some(make_reply(message, self.snackreplies.texts[clamped].clone()));
        }
        None
    }

    /// Answers `message`, drawing a random number for a snack.
    pub fn call(&mut self, message: SendMessage) -> (r: Option<SendMessage>)
        ensures
            final(self).replies() == old(self).replies(),
            exists|draw: u64| answers(message, r, #[trigger] snack_outcome(old(self).replies(), message, draw)),
            final(self).draws() == old(self).draws() + if wants_snack_draw(message) {
                1nat
            } else {
                0nat
            },
    {
        let wants = match &message.body {
            Some(b) => !has_prefix(b.as_str(), "^goodbot") && has_prefix(b.as_str(), "^botsnack"),
            None => false,
        };
        let draw = if wants {
            self.random.next()
        } else {
            0
        };
        self.answer(&message, draw)
    }
}

} // verus!
