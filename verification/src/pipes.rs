//! Where incoming stanzas go: the stanza kinds, the chat messages, the
//! rooms the bot is in, and the fan-out of a channel to its plugins.
use vstd::prelude::*;
use crate::jid::{Jid, JidView};
use crate::sendable::{Message, MessageType, built_from};
use crate::text::same_text;
use crate::xmpp::{element_name, iq_payload, message_parts, message_payload, parse_iq, parse_message, parse_presence, parts_of, presence_payload, stanza_name};
use xmpp_parsers::iq::Iq;
use xmpp_parsers::presence::Presence;
use xmpp_parsers::Element;

verus! {

/// The kinds of stanza that are passed on; everything else is dropped.
#[derive(PartialEq, Eq, Structural, Clone, Copy, Debug)]
pub enum StanzaKind {
    Message,
    Presence,
    Iq,
    Other,
}

/// The kind of a stanza named `name`.
pub open spec fn stanza_kind(name: Seq<char>) -> StanzaKind {
    if name == "message"@ {
        StanzaKind::Message
    } else if name == "presence"@ {
        StanzaKind::Presence
    } else if name == "iq"@ {
        StanzaKind::Iq
    } else {
        StanzaKind::Other
    }
}

/// The kind of a stanza, by the name of its element.
pub fn route_stanza(name: &str) -> (r: StanzaKind)
    ensures
        r == stanza_kind(name@),
{
    if same_text(name, "message") {
        StanzaKind::Message
    } else if same_text(name, "presence") {
        StanzaKind::Presence
    } else if same_text(name, "iq") {
        StanzaKind::Iq
    } else {
        StanzaKind::Other
    }
}

/// A stanza from the server, parsed for the pipe that takes it.
pub enum Stanza {
    Message(Message),
    Presence(Presence),
    Iq(Iq),
    /// Not a message, presence or iq, or one that does not parse: dropped.
    Dropped,
}

/// `r` is what becomes of the element `e`: by its name, a message, presence
/// or iq when it parses as one; dropped otherwise.
pub open spec fn accepted(e: Element, r: Stanza) -> bool {
    match stanza_kind(element_name(e)) {
        StanzaKind::Message => match message_payload(e) {
            Some(x) => r matches Stanza::Message(m) && built_from(m, parts_of(x)),
            None => r is Dropped,
        },
        StanzaKind::Presence => match presence_payload(e) {
            Some(p) => r == Stanza::Presence(p),
            None => r is Dropped,
        },
        StanzaKind::Iq => match iq_payload(e) {
            Some(q) => r == Stanza::Iq(q),
            None => r is Dropped,
        },
        StanzaKind::Other => r is Dropped,
    }
}

/// Sorts a stanza from the server by its name and parses it.
pub fn accept_stanza(e: Element) -> (r: Stanza)
    ensures
        accepted(e, r),
{
    let name = stanza_name(&e);
    match route_stanza(name.as_str()) {
        StanzaKind::Message => match parse_message(e) {
            Some(x) => Stanza::Message(Message::from_parts(message_parts(x))),
            None => Stanza::Dropped,
        },
        StanzaKind::Presence => match parse_presence(e) {
            Some(p) => Stanza::Presence(p),
            None => Stanza::Dropped,
        },
        StanzaKind::Iq => match parse_iq(e) {
            Some(q) => Stanza::Iq(q),
            None => Stanza::Dropped,
        },
        StanzaKind::Other => Stanza::Dropped,
    }
}

/// Only the names `message`, `presence` and `iq` are passed on, each to its
/// own pipe; every other name is dropped.
pub proof fn law_stanza_names(name: Seq<char>)
    ensures
        stanza_kind(name) == StanzaKind::Message <==> name == "message"@,
        stanza_kind(name) == StanzaKind::Presence <==> name == "presence"@,
        stanza_kind(name) == StanzaKind::Iq <==> name == "iq"@,
{
    reveal_strlit("message");
    reveal_strlit("presence");
    reveal_strlit("iq");
    assert("message"@.len() != "presence"@.len());
    assert("message"@.len() != "iq"@.len());
    assert("presence"@.len() != "iq"@.len());
}

/// Where a chat message goes.
#[derive(PartialEq, Eq, Structural, Clone, Copy, Debug)]
pub enum ChatRoute {
    /// To the handler of direct messages.
    Direct,
    /// Nowhere.
    Drop,
}

/// Chat messages, and group chat messages that name a recipient, go to
/// the direct handler; all others are dropped.
pub open spec fn chat_route(mtype: MessageType, has_to: bool) -> ChatRoute {
    match mtype {
        MessageType::Chat => ChatRoute::Direct,
        MessageType::Groupchat => if has_to {
            ChatRoute::Direct
        } else {
            ChatRoute::Drop
        },
        _ => ChatRoute::Drop,
    }
}

/// Every message of type chat goes to the direct handler, whatever its
/// recipient; a group chat message goes there exactly when it names a
/// recipient; messages of every other type are dropped.
pub proof fn law_chat_routes(mtype: MessageType, has_to: bool)
    ensures
        mtype == MessageType::Chat ==> chat_route(mtype, has_to) == ChatRoute::Direct,
        mtype == MessageType::Groupchat ==> (chat_route(mtype, has_to) == ChatRoute::Direct <==> has_to),
        mtype != MessageType::Chat && mtype != MessageType::Groupchat ==> chat_route(mtype, has_to)
            == ChatRoute::Drop,
{
}

/// The handlers of the rooms the bot is in, keyed by the bare ID of the
/// room; no key occurs twice.
pub open spec fn distinct_rooms<H>(t: Seq<(JidView, H)>) -> bool {
    forall|i: int, j: int| 0 <= i < j < t.len() ==> t[i].0 != t[j].0
}

/// `t` has an entry for `k`.
pub open spec fn has_room<H>(t: Seq<(JidView, H)>, k: JidView) -> bool {
    exists|i: int| 0 <= i < t.len() && t[i].0 == k
}

/// The position of the entry for `k`.
pub open spec fn room_pos<H>(t: Seq<(JidView, H)>, k: JidView) -> int {
    choose|i: int| 0 <= i < t.len() && t[i].0 == k
}

/// Joining `k` with the handler `c`: the table afterwards and the handler
/// it replaced, if `k` had one.
pub open spec fn table_join<H>(t: Seq<(JidView, H)>, k: JidView, c: H) -> (Seq<(JidView, H)>, Option<H>) {
    if has_room(t, k) {
        (t.update(room_pos(t, k), (k, c)), Some(t[room_pos(t, k)].1))
    } else {
        (t.push((k, c)), None)
    }
}

/// Leaving `k`: the table afterwards and the handler taken out, if `k` had
/// one.
pub open spec fn table_leave<H>(t: Seq<(JidView, H)>, k: JidView) -> (Seq<(JidView, H)>, Option<H>) {
    if has_room(t, k) {
        (t.remove(room_pos(t, k)), Some(t[room_pos(t, k)].1))
    } else {
        (t, None)
    }
}

proof fn lemma_room_pos<H>(t: Seq<(JidView, H)>, i: int)
    requires
        distinct_rooms(t),
        0 <= i < t.len(),
    ensures
        has_room(t, t[i].0),
        room_pos(t, t[i].0) == i,
{
    let k = t[i].0;
    assert(has_room(t, k));
    let j = room_pos(t, k);
    if j != i {
        if j < i {
            assert(t[j].0 != t[i].0);
        } else {
            assert(t[i].0 != t[j].0);
        }
    }
}

/// A command for the chat messages.
pub enum ChatCmd<H> {
    /// Enter the room of the ID, answering it with the handler.
    Join(Jid, H),
    /// Leave the room of the ID.
    Leave(Jid),
}

/// A command for the stanza pipes.
pub enum PipeCmd<H> {
    MUC(ChatCmd<H>),
}

/// The chat messages: the handler of direct messages, the handlers of the
/// rooms the bot is in, and the commands that change the rooms (a receiver
/// of type `C`).
pub struct ChatPipe<H, C> {
    dm: H,
    muc: Vec<(Jid, H)>,
    control: C,
}

/// `x` itself, lent on.
fn lend<T>(x: &mut T) -> (r: &mut T)
    ensures
        *r == *old(x),
        *final(x) == *final(r),
    no_unwind
{
    x
}

/// The handler of entry `i` of `v`, to work with.
fn handler_at<H>(v: &mut Vec<(Jid, H)>, i: usize) -> (r: &mut H)
    requires
        i < old(v)@.len(),
    ensures
        *r == old(v)@[i as int].1,
        final(v)@ == old(v)@.update(i as int, (old(v)@[i as int].0, *final(r))),
        forall|a: int| 0 <= a < old(v)@.len() ==> (#[trigger] final(v)@[a]).0 == old(v)@[a].0,
        forall|a: int| 0 <= a < old(v)@.len() ==> (#[trigger] table_of(final(v)@)[a]).0 == table_of(old(v)@)[a].0,
    no_unwind
{
    &mut v[i].1
}

/// The room table of `v`, keyed by the views of the IDs.
pub open spec fn table_of<H>(v: Seq<(Jid, H)>) -> Seq<(JidView, H)> {
    v.map_values(|e: (Jid, H)| (e.0@, e.1))
}

impl<H, C> ChatPipe<H, C> {
    /// The rooms and their handlers, by bare ID.
    pub closed spec fn rooms(&self) -> Seq<(JidView, H)> {
        table_of(self.muc@)
    }

    /// The handler of direct messages.
    pub closed spec fn direct(&self) -> H {
        self.dm
    }

    /// Where the room commands come from.
    pub closed spec fn commands(&self) -> C {
        self.control
    }

    /// The room keys are bare IDs and occur once each: this holds of every
    /// pipe.
    #[verifier::type_invariant]
    spec fn wf(&self) -> bool {
        &&& distinct_rooms(self.rooms())
        &&& forall|i: int| 0 <= i < self.muc@.len() ==> (#[trigger] self.muc@[i]).0.resource is None
    }

    /// A pipe in no room.
    pub fn new(dm: H, control: C) -> (r: Self)
        ensures
            r.rooms() == Seq::<(JidView, H)>::empty(),
            r.direct() == dm,
            r.commands() == control,
    {
        let r = ChatPipe { dm, muc: Vec::new(), control };
        assert(r.rooms() =~= Seq::<(JidView, H)>::empty());
        r
    }

    /// The number of rooms; no room occurs twice.
    pub fn room_count(&self) -> (r: usize)
        ensures
            r == self.rooms().len(),
            distinct_rooms(self.rooms()),
    {
        proof {
            use_type_invariant(self);
        }
        self.muc.len()
    }

    /// The handler of direct messages, to work with.
    pub fn direct_handler(&mut self) -> (r: &mut H)
        ensures
            *r == old(self).direct(),
            final(self).direct() == *final(r),
            final(self).rooms() == old(self).rooms(),
            final(self).commands() == old(self).commands(),
    {
        proof {
            use_type_invariant(&*self);
        }
        lend(&mut self.dm)
    }

    /// Where the room commands come from, to read from.
    pub fn command_source(&mut self) -> (r: &mut C)
        ensures
            *r == old(self).commands(),
            final(self).commands() == *final(r),
            final(self).rooms() == old(self).rooms(),
            final(self).direct() == old(self).direct(),
    {
        proof {
            use_type_invariant(&*self);
        }
        lend(&mut self.control)
    }

    /// The handler of room number `i`.
    pub fn room_handler(&mut self, i: usize) -> (r: &mut H)
        requires
            i < old(self).rooms().len(),
        ensures
            *r == old(self).rooms()[i as int].1,
            final(self).rooms() == old(self).rooms().update(
                i as int,
                (old(self).rooms()[i as int].0, *final(r)),
            ),
            final(self).direct() == old(self).direct(),
            final(self).commands() == old(self).commands(),
    {
        proof {
            use_type_invariant(&*self);
        }
        handler_at(&mut self.muc, i)
    }

    fn find(&self, k: &Jid) -> (r: Option<usize>)
        ensures
            r matches Some(i) ==> i < self.rooms().len() && self.rooms()[i as int].0 == k@,
            r is None ==> !has_room(self.rooms(), k@),
    {
        let mut i: usize = 0;
        while i < self.muc.len()
            invariant
                i <= self.muc@.len(),
                forall|j: int| 0 <= j < i ==> self.rooms()[j].0 != k@,
            decreases self.muc@.len() - i,
        {
            if self.muc[i].0.same(k) {
                return Some(i);
            }
            i = i + 1;
        }
        None
    }

    /// Enters the room of `j` (its bare ID) with the handler `c`, and gives
    /// back the handler it had, if it was in that room already. No room
    /// occurs twice, before or after.
    pub fn join(&mut self, j: Jid, c: H) -> (r: Option<H>)
        ensures
            distinct_rooms(old(self).rooms()),
            distinct_rooms(final(self).rooms()),
            final(self).direct() == old(self).direct(),
            final(self).commands() == old(self).commands(),
            (final(self).rooms(), r) == table_join(old(self).rooms(), j@.bare(), c),
    {
        proof {
            use_type_invariant(&*self);
        }
        let k = j.into_bare_jid();
        let ghost kv = k@;
        let ghost t = self.rooms();
        let ghost m0 = self.muc@;
        match self.find(&k) {
            Some(i) => {
                proof {
                    lemma_room_pos(t, i as int);
                }
                let mut muc: Vec<(Jid, H)> = Vec::new();
                std::mem::swap(&mut muc, &mut self.muc);
                let (_old_key, old_handler) = muc.remove(i);
                muc.insert(i, (k, c));
                proof {
                    assert(muc@ =~= m0.update(i as int, (k, c)));
                    assert(table_of(muc@) =~= t.update(i as int, (kv, c)));
                    assert forall|a: int, b: int| 0 <= a < b < table_of(muc@).len() implies table_of(muc@)[a].0
                        != table_of(muc@)[b].0 by {
                        assert(t[a].0 != t[b].0);
                    }
                    assert forall|a: int| 0 <= a < muc@.len() implies (#[trigger] muc@[a]).0.resource is None by {
                        if a != i {
                            assert(muc@[a] == m0[a]);
                        }
                    }
                }
                self.muc = muc;
                Some(old_handler)
            },
            None => {
                let mut muc: Vec<(Jid, H)> = Vec::new();
                std::mem::swap(&mut muc, &mut self.muc);
                muc.push((k, c));
                proof {
                    assert(muc@ =~= m0.push((k, c)));
                    assert(table_of(muc@) =~= t.push((kv, c)));
                    assert forall|a: int, b: int| 0 <= a < b < table_of(muc@).len() implies table_of(muc@)[a].0
                        != table_of(muc@)[b].0 by {
                        if b < t.len() {
                            assert(t[a].0 != t[b].0);
                        } else if t[a].0 == kv {
                            assert(has_room(t, kv));
                        }
                    }
                    assert forall|a: int| 0 <= a < muc@.len() implies (#[trigger] muc@[a]).0.resource is None by {
                        if a < m0.len() {
                            assert(muc@[a] == m0[a]);
                        }
                    }
                }
                self.muc = muc;
                None
            },
        }
    }

    /// Leaves the room of `j` (its bare ID), and gives back its handler if
    /// the bot was in it. No room occurs twice, before or after.
    pub fn leave(&mut self, j: Jid) -> (r: Option<H>)
        ensures
            distinct_rooms(old(self).rooms()),
            distinct_rooms(final(self).rooms()),
            final(self).direct() == old(self).direct(),
            final(self).commands() == old(self).commands(),
            (final(self).rooms(), r) == table_leave(old(self).rooms(), j@.bare()),
    {
        proof {
            use_type_invariant(&*self);
        }
        let k = j.into_bare_jid();
        let ghost t = self.rooms();
        let ghost m0 = self.muc@;
        match self.find(&k) {
            Some(i) => {
                proof {
                    lemma_room_pos(t, i as int);
                }
                let mut muc: Vec<(Jid, H)> = Vec::new();
                std::mem::swap(&mut muc, &mut self.muc);
                let (_old_key, old_handler) = muc.remove(i);
                proof {
                    assert(muc@ =~= m0.remove(i as int));
                    assert(table_of(muc@) =~= t.remove(i as int));
                    assert forall|a: int, b: int| 0 <= a < b < table_of(muc@).len() implies table_of(muc@)[a].0
                        != table_of(muc@)[b].0 by {
                        if b < i {
                            assert(t[a].0 != t[b].0);
                        } else if a < i {
                            assert(t[a].0 != t[b + 1].0);
                        } else {
                            assert(t[a + 1].0 != t[b + 1].0);
                        }
                    }
                    assert forall|a: int| 0 <= a < muc@.len() implies (#[trigger] muc@[a]).0.resource is None by {
                        if a < i {
                            assert(muc@[a] == m0[a]);
                        } else {
                            assert(muc@[a] == m0[a + 1]);
                        }
                    }
                }
                self.muc = muc;
                Some(old_handler)
            },
            None => None,
        }
    }

    /// Carries out a room command.
    pub fn apply(&mut self, cmd: ChatCmd<H>) -> (r: Option<H>)
        ensures
            distinct_rooms(old(self).rooms()),
            distinct_rooms(final(self).rooms()),
            final(self).direct() == old(self).direct(),
            final(self).commands() == old(self).commands(),
            match cmd {
                ChatCmd::Join(j, c) => (final(self).rooms(), r) == table_join(old(self).rooms(), j@.bare(), c),
                ChatCmd::Leave(j) => (final(self).rooms(), r) == table_leave(old(self).rooms(), j@.bare()),
            },
    {
        match cmd {
            ChatCmd::Join(j, c) => self.join(j, c),
            ChatCmd::Leave(j) => self.leave(j),
        }
    }

    /// Where the chat message `m` goes.
    pub fn route(&self, m: &Message) -> (r: ChatRoute)
        ensures
            r == chat_route(m.type_, m.to is Some),
    {
        match m.type_ {
            MessageType::Chat => ChatRoute::Direct,
            MessageType::Groupchat => if m.to.is_some() {
                ChatRoute::Direct
            } else {
                ChatRoute::Drop
            },
            _ => ChatRoute::Drop,
        }
    }
}

/// Joining a room the bot is not in and then leaving it gives back the
/// handler that joined and the rooms as they were.
pub proof fn law_join_then_leave<H>(t: Seq<(JidView, H)>, k: JidView, c: H)
    requires
        distinct_rooms(t),
        !has_room(t, k),
    ensures
        table_join(t, k, c).1 is None,
        table_leave(table_join(t, k, c).0, k) == (t, Some(c)),
{
    let t2 = t.push((k, c));
    assert forall|a: int, b: int| 0 <= a < b < t2.len() implies t2[a].0 != t2[b].0 by {
        if b < t.len() {
            assert(t[a].0 != t[b].0);
        } else if t[a].0 == k {
            assert(has_room(t, k));
        }
    }
    lemma_room_pos(t2, t.len() as int);
    assert(t2.remove(t.len() as int) =~= t);
}

/// Joining a room the bot is in already replaces its handler and gives back
/// the old one; the rooms stay the same set.
pub proof fn law_rejoin_replaces<H>(t: Seq<(JidView, H)>, i: int, c: H)
    requires
        distinct_rooms(t),
        0 <= i < t.len(),
    ensures
        table_join(t, t[i].0, c).1 == Some(t[i].1),
        table_join(t, t[i].0, c).0 == t.update(i, (t[i].0, c)),
{
    lemma_room_pos(t, i);
}

/// The handler of the room `k` in `t`, if the bot is in it.
pub open spec fn room_of<H>(t: Seq<(JidView, H)>, k: JidView) -> Option<H> {
    if has_room(t, k) {
        Some(t[room_pos(t, k)].1)
    } else {
        None
    }
}

/// A change of the rooms: a join with its handler, or a leave.
pub enum RoomStep<H> {
    Join(JidView, H),
    Leave(JidView),
}

/// The room that a step changes.
pub open spec fn step_room<H>(s: RoomStep<H>) -> JidView {
    match s {
        RoomStep::Join(k, _) => k,
        RoomStep::Leave(k) => k,
    }
}

/// The rooms after the steps `steps`, in turn.
pub open spec fn run_rooms<H>(t: Seq<(JidView, H)>, steps: Seq<RoomStep<H>>) -> Seq<(JidView, H)>
    decreases steps.len(),
{
    if steps.len() == 0 {
        t
    } else {
        let next = match steps[0] {
            RoomStep::Join(k, c) => table_join(t, k, c).0,
            RoomStep::Leave(k) => table_leave(t, k).0,
        };
        run_rooms(next, steps.drop_first())
    }
}

proof fn lemma_room_of_at<H>(t: Seq<(JidView, H)>, i: int)
    requires
        distinct_rooms(t),
        0 <= i < t.len(),
    ensures
        room_of(t, t[i].0) == Some(t[i].1),
{
    lemma_room_pos(t, i);
}

/// Joining keeps the keys distinct, sets the handler of the room joined and
/// leaves every other room as it was.
pub proof fn lemma_join_rooms<H>(t: Seq<(JidView, H)>, k: JidView, c: H, k2: JidView)
    requires
        distinct_rooms(t),
    ensures
        distinct_rooms(table_join(t, k, c).0),
        room_of(table_join(t, k, c).0, k2) == if k2 == k {
            Some(c)
        } else {
            room_of(t, k2)
        },
{
    let t2 = table_join(t, k, c).0;
    if has_room(t, k) {
        let p = room_pos(t, k);
        assert forall|a: int, b: int| 0 <= a < b < t2.len() implies t2[a].0 != t2[b].0 by {
            assert(t[a].0 != t[b].0);
        }
        assert(t2[p].0 == k);
        if k2 == k {
            lemma_room_of_at(t2, p);
        } else if has_room(t, k2) {
            let i = room_pos(t, k2);
            assert(t2[i] == t[i]);
            lemma_room_of_at(t2, i);
        } else {
            assert forall|j: int| 0 <= j < t2.len() implies t2[j].0 != k2 by {
                if j != p {
                    assert(t2[j] == t[j]);
                }
            }
        }
    } else {
        assert forall|a: int, b: int| 0 <= a < b < t2.len() implies t2[a].0 != t2[b].0 by {
            if b < t.len() {
                assert(t[a].0 != t[b].0);
            } else if t[a].0 == k {
                assert(has_room(t, k));
            }
        }
        if k2 == k {
            lemma_room_of_at(t2, t.len() as int);
        } else if has_room(t, k2) {
            let i = room_pos(t, k2);
            assert(t2[i] == t[i]);
            lemma_room_of_at(t2, i);
        } else {
            assert forall|j: int| 0 <= j < t2.len() implies t2[j].0 != k2 by {
                if j < t.len() {
                    assert(t2[j] == t[j]);
                }
            }
        }
    }
}

/// Leaving keeps the keys distinct, takes the room left out and leaves
/// every other room as it was.
pub proof fn lemma_leave_rooms<H>(t: Seq<(JidView, H)>, k: JidView, k2: JidView)
    requires
        distinct_rooms(t),
    ensures
        distinct_rooms(table_leave(t, k).0),
        room_of(table_leave(t, k).0, k2) == if k2 == k {
            None
        } else {
            room_of(t, k2)
        },
{
    let t2 = table_leave(t, k).0;
    if has_room(t, k) {
        let p = room_pos(t, k);
        assert forall|a: int, b: int| 0 <= a < b < t2.len() implies t2[a].0 != t2[b].0 by {
            if b < p {
                assert(t[a].0 != t[b].0);
            } else if a < p {
                assert(t[a].0 != t[b + 1].0);
            } else {
                assert(t[a + 1].0 != t[b + 1].0);
            }
        }
        if k2 == k {
            assert forall|j: int| 0 <= j < t2.len() implies t2[j].0 != k2 by {
                if j < p {
                    assert(t[j].0 != t[p].0);
                } else {
                    assert(t[p].0 != t[j + 1].0);
                }
            }
        } else if has_room(t, k2) {
            let i = room_pos(t, k2);
            if i < p {
                assert(t2[i] == t[i]);
                lemma_room_of_at(t2, i);
            } else {
                assert(i != p);
                assert(t2[i - 1] == t[i]);
                lemma_room_of_at(t2, i - 1);
            }
        } else {
            assert forall|j: int| 0 <= j < t2.len() implies t2[j].0 != k2 by {
                if j < p {
                    assert(t2[j] == t[j]);
                } else {
                    assert(t2[j] == t[j + 1]);
                }
            }
        }
    }
}

/// Steps that do not change the room `k` keep the keys distinct and leave
/// the handler of `k` as it was.
pub proof fn lemma_run_keeps_room<H>(t: Seq<(JidView, H)>, steps: Seq<RoomStep<H>>, k: JidView)
    requires
        distinct_rooms(t),
        forall|i: int| 0 <= i < steps.len() ==> step_room(#[trigger] steps[i]) != k,
    ensures
        distinct_rooms(run_rooms(t, steps)),
        room_of(run_rooms(t, steps), k) == room_of(t, k),
    decreases steps.len(),
{
    if steps.len() > 0 {
        let next = match steps[0] {
            RoomStep::Join(k1, c) => table_join(t, k1, c).0,
            RoomStep::Leave(k1) => table_leave(t, k1).0,
        };
        assert(step_room(steps[0]) != k);
        match steps[0] {
            RoomStep::Join(k1, c) => lemma_join_rooms(t, k1, c, k),
            RoomStep::Leave(k1) => lemma_leave_rooms(t, k1, k),
        }
        assert forall|i: int| 0 <= i < steps.drop_first().len() implies step_room(
            #[trigger] steps.drop_first()[i],
        ) != k by {
            assert(steps.drop_first()[i] == steps[i + 1]);
        }
        lemma_run_keeps_room(next, steps.drop_first(), k);
    }
}

/// After joining the room `k` with the handler `c`, and any changes of
/// other rooms, leaving `k` gives back `c`; leaving it again gives back
/// nothing; and the other rooms keep their handlers.
pub proof fn law_join_then_leave_later<H>(
    t: Seq<(JidView, H)>,
    k: JidView,
    c: H,
    steps: Seq<RoomStep<H>>,
    k2: JidView,
)
    requires
        distinct_rooms(t),
        forall|i: int| 0 <= i < steps.len() ==> step_room(#[trigger] steps[i]) != k,
    ensures
        table_leave(run_rooms(table_join(t, k, c).0, steps), k).1 == Some(c),
        table_leave(table_leave(run_rooms(table_join(t, k, c).0, steps), k).0, k).1 is None,
        k2 != k ==> room_of(table_leave(run_rooms(table_join(t, k, c).0, steps), k).0, k2) == room_of(
            run_rooms(table_join(t, k, c).0, steps),
            k2,
        ),
{
    lemma_join_rooms(t, k, c, k);
    let t1 = table_join(t, k, c).0;
    lemma_run_keeps_room(t1, steps, k);
    let t2 = run_rooms(t1, steps);
    lemma_leave_rooms(t2, k, k);
    lemma_leave_rooms(t2, k, k2);
}

/// Leaving a room the bot is not in changes nothing and gives back nothing.
pub proof fn law_leave_absent<H>(t: Seq<(JidView, H)>, k: JidView)
    requires
        !has_room(t, k),
    ensures
        table_leave(t, k) == (t, None::<H>),
{
}

/// Whether a dispatcher may pass items on yet.
pub struct Dispatch<S> {
    /// The sink the items go to.
    pub inner: S,
    ready: bool,
}

impl<S> Dispatch<S> {
    /// The dispatcher passes items on.
    pub closed spec fn is_open(&self) -> bool {
        self.ready
    }

    /// The sink.
    pub closed spec fn sink(&self) -> S {
        self.inner
    }

    /// A dispatcher in front of `inner` that holds items back until `inner`
    /// has flushed once.
    pub fn new(inner: S) -> (r: Self)
        ensures
            !r.is_open(),
            r.sink() == inner,
    {
        Dispatch { inner, ready: false }
    }

    /// Whether an item may go to the sink now.
    pub fn admits(&self) -> (r: bool)
        ensures
            r == self.is_open(),
    {
        self.ready
    }

    /// Records that the sink has flushed: from now on items pass.
    pub fn flushed(&mut self)
        ensures
            final(self).is_open(),
            final(self).sink() == old(self).sink(),
    {
        self.ready = true;
    }
}

/// One step on a [`Dispatch`]: a flush of its sink (which either completed
/// or did not), or an item to pass on.
pub enum DispatchStep {
    Flush(bool),
    Send,
}

/// Whether the dispatcher is open before step `i` of `steps`, having been
/// `open` before the first.
pub open spec fn open_before(open: bool, steps: Seq<DispatchStep>, i: int) -> bool
    decreases i,
{
    if i <= 0 {
        open
    } else {
        open_before(open, steps, i - 1) || steps[i - 1] == DispatchStep::Flush(true)
    }
}

/// An item is passed on exactly when some earlier flush of the sink
/// completed (or the dispatcher was open already); before that every item
/// is held back.
pub proof fn law_dispatch_opens_at_first_flush(open: bool, steps: Seq<DispatchStep>, i: int)
    requires
        0 <= i <= steps.len(),
    ensures
        open_before(open, steps, i) == (open || exists|j: int| 0 <= j < i && steps[j] == DispatchStep::Flush(true)),
    decreases i,
{
    if i > 0 {
        law_dispatch_opens_at_first_flush(open, steps, i - 1);
        if open_before(open, steps, i - 1) && !open {
            let j = choose|j: int| 0 <= j < i - 1 && steps[j] == DispatchStep::Flush(true);
            assert(0 <= j < i && steps[j] == DispatchStep::Flush(true));
        }
        if steps[i - 1] == DispatchStep::Flush(true) {
            assert(0 <= i - 1 < i && steps[i - 1] == DispatchStep::Flush(true));
        }
        if exists|j: int| 0 <= j < i && steps[j] == DispatchStep::Flush(true) {
            let j = choose|j: int| 0 <= j < i && steps[j] == DispatchStep::Flush(true);
            if j < i - 1 {
                assert(exists|j2: int| 0 <= j2 < i - 1 && steps[j2] == DispatchStep::Flush(true));
            }
        }
    }
}

/// A stream that a channel reads from.
pub struct Select<R> {
    pub stream: R,
}

impl<R> Select<R> {
    pub fn new(stream: R) -> (r: Self)
        ensures
            r.stream == stream,
    {
        Select { stream }
    }
}

/// A channel: the sinks that each incoming message goes to, each behind a
/// [`Dispatch`], and the streams of what the plugins answer.
pub struct ChannelHandler<S, R> {
    pub dispatch: Vec<Dispatch<S>>,
    pub select: Vec<Select<R>>,
}

impl<S, R> ChannelHandler<S, R> {
    /// A channel with no sinks and no streams.
    pub fn new() -> (r: Self)
        ensures
            r.dispatch@.len() == 0,
            r.select@.len() == 0,
    {
        Self::new_with_modules(Vec::new(), Vec::new())
    }

    /// A channel over `sinks` (each behind a closed [`Dispatch`]) and
    /// `streams`, in order.
    pub fn new_with_modules(sinks: Vec<S>, streams: Vec<R>) -> (r: Self)
        ensures
            r.dispatch@.len() == sinks@.len(),
            forall|i: int| 0 <= i < sinks@.len() ==> (#[trigger] r.dispatch@[i]).sink() == sinks@[i]
                && !r.dispatch@[i].is_open(),
            r.select@.len() == streams@.len(),
            forall|i: int| 0 <= i < streams@.len() ==> (#[trigger] r.select@[i]).stream == streams@[i],
    {
        let mut sinks = sinks;
        let mut streams = streams;
        let ghost s0 = sinks@;
        let ghost r0 = streams@;
        let mut dispatch: Vec<Dispatch<S>> = Vec::new();
        while sinks.len() > 0
            invariant
                dispatch@.len() + sinks@.len() == s0.len(),
                forall|i: int| 0 <= i < sinks@.len() ==> sinks@[i] == s0[i],
                forall|i: int| 0 <= i < dispatch@.len() ==> (#[trigger] dispatch@[i]).sink() == s0[s0.len() - 1 - i]
                    && !dispatch@[i].is_open(),
            decreases sinks@.len(),
        {
            let s = sinks.pop().unwrap();
            dispatch.push(Dispatch::new(s));
        }
        let mut select: Vec<Select<R>> = Vec::new();
        while streams.len() > 0
            invariant
                select@.len() + streams@.len() == r0.len(),
                forall|i: int| 0 <= i < streams@.len() ==> streams@[i] == r0[i],
                forall|i: int| 0 <= i < select@.len() ==> (#[trigger] select@[i]).stream == r0[r0.len() - 1 - i],
            decreases streams@.len(),
        {
            let s = streams.pop().unwrap();
            select.push(Select::new(s));
        }
        let dispatch = reversed(dispatch);
        let select = reversed(select);
        ChannelHandler { dispatch, select }
    }

    /// Adds a sink, behind a closed [`Dispatch`].
    pub fn add_sink(&mut self, sink: S)
        ensures
            final(self).dispatch@.len() == old(self).dispatch@.len() + 1,
            forall|i: int| 0 <= i < old(self).dispatch@.len() ==> final(self).dispatch@[i] == old(self).dispatch@[i],
            final(self).dispatch@.last().sink() == sink,
            !final(self).dispatch@.last().is_open(),
            final(self).select == old(self).select,
    {
        self.dispatch.push(Dispatch::new(sink));
    }

    /// Adds a stream.
    pub fn add_stream(&mut self, stream: R)
        ensures
            final(self).select@ == old(self).select@.push(Select { stream }),
            final(self).dispatch == old(self).dispatch,
    {
        self.select.push(Select::new(stream));
    }
}

/// `v` in reverse order.
fn reversed<A>(v: Vec<A>) -> (r: Vec<A>)
    ensures
        r@ == v@.reverse(),
{
    let mut v = v;
    let ghost v0 = v@;
    let mut r: Vec<A> = Vec::new();
    while v.len() > 0
        invariant
            r@.len() + v@.len() == v0.len(),
            forall|i: int| 0 <= i < v@.len() ==> v@[i] == v0[i],
            forall|i: int| 0 <= i < r@.len() ==> r@[i] == v0[v0.len() - 1 - i],
        decreases v@.len(),
    {
        let x = v.pop().unwrap();
        r.push(x);
    }
    assert(r@ =~= v0.reverse());
    r
}

/// Whether a broadcast may go out: `start` or-ed with each sink's
/// readiness, in order (the handlers start from `true`).
pub fn ready_from(start: bool, flags: &Vec<bool>) -> (r: bool)
    ensures
        r == (start || exists|i: int| 0 <= i < flags@.len() && flags@[i]),
{
    let mut ready = start;
    let mut i: usize = 0;
    while i < flags.len()
        invariant
            i <= flags@.len(),
            ready == (start || exists|k: int| 0 <= k < i && flags@[k]),
        decreases flags@.len() - i,
    {
        ready = ready || flags[i];
        i = i + 1;
    }
    ready
}

} // verus!
