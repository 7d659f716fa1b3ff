//! The parts of `xmpp_parsers` that the library reads: raw elements, the
//! stanzas parsed from them, `<delay/>` notes, and the calls that convert
//! between them.
use vstd::prelude::*;
use xmpp_parsers::delay::Delay;
use xmpp_parsers::iq::Iq;
use xmpp_parsers::message::{Message as XmppMessage, MessageType as XmppType};
use xmpp_parsers::presence::Presence;
use xmpp_parsers::{Element, Jid as XmppJid, TryFrom};
use crate::jid::Jid;
use crate::sendable::{MessageParts, distinct_keys, lang_pairs};
use crate::sendable::MessageType::{Chat, Error, Groupchat, Headline, Normal};

verus! {

/// An XML element, as `xmpp_parsers` (minidom) holds it.
#[verifier::external_type_specification]
#[verifier::external_body]
pub struct ExElement(Element);

/// A parsed `<delay/>` note (XEP-0203).
#[verifier::external_type_specification]
#[verifier::external_body]
pub struct ExDelay(Delay);

/// A parsed `<presence/>` stanza.
#[verifier::external_type_specification]
#[verifier::external_body]
pub struct ExPresence(Presence);

/// A parsed `<iq/>` stanza.
#[verifier::external_type_specification]
#[verifier::external_body]
pub struct ExIq(Iq);

/// The (local) name of an element.
pub uninterp spec fn element_name(e: Element) -> Seq<char>;

/// A parsed `<message/>` stanza.
#[verifier::external_type_specification]
#[verifier::external_body]
pub struct ExMessage(XmppMessage);

/// What `Message::try_from` makes of an element: the message when the
/// element is a well-formed `<message/>`.
pub uninterp spec fn message_payload(e: Element) -> Option<XmppMessage>;

/// The parts of a parsed message, in the library's types.
pub uninterp spec fn parts_of(m: XmppMessage) -> MessageParts;

/// What `Presence::try_from` makes of an element.
pub uninterp spec fn presence_payload(e: Element) -> Option<Presence>;

/// What `Iq::try_from` makes of an element.
pub uninterp spec fn iq_payload(e: Element) -> Option<Iq>;

/// Calls `Element::name`; the contract names the name.
#[verifier::external_body]
pub(crate) fn stanza_name(e: &Element) -> (r: String)
    ensures
        r@ == element_name(*e),
{
    e.name().to_owned()
}

/// Calls `Message::try_from` on `e`; an error becomes `None`. The
/// contract names the outcome.
#[verifier::external_body]
pub(crate) fn parse_message(e: Element) -> (r: Option<XmppMessage>)
    ensures
        r == message_payload(e),
{
    XmppMessage::try_from(e).ok()
}

/// Takes a parsed message apart, field by field: the IDs and the type
/// become the library's, bodies and subjects become (language, text)
/// pairs. The contract names the parts, and states that each language
/// occurs once among the bodies and among the subjects (they come from a
/// `BTreeMap` keyed by language).
#[verifier::external_body]
pub(crate) fn message_parts(m: XmppMessage) -> (r: MessageParts)
    ensures
        r == parts_of(m),
        distinct_keys(lang_pairs(r.bodies@)) && distinct_keys(lang_pairs(r.subjects@)),
{
    let jid = |j: XmppJid| Jid { node: j.node, domain: j.domain, resource: j.resource };
    let type_ = match m.type_ {
        XmppType::Chat => Chat,
        XmppType::Error => Error,
        XmppType::Groupchat => Groupchat,
        XmppType::Headline => Headline,
        XmppType::Normal => Normal,
    };
    let bodies = m.bodies.into_iter().map(|(l, b)| (l, b.0)).collect();
    let subjects = m.subjects.into_iter().map(|(l, s)| (l, s.0)).collect();
    let thread = m.thread.map(|t| t.0);
    MessageParts { from: m.from.map(jid), to: m.to.map(jid), id: m.id, type_, bodies, subjects, thread, payloads: m.payloads }
}

/// Calls `Presence::try_from` on `e`; an error becomes `None`. The contract
/// names the outcome.
#[verifier::external_body]
pub(crate) fn parse_presence(e: Element) -> (r: Option<Presence>)
    ensures
        r == presence_payload(e),
{
    Presence::try_from(e).ok()
}

/// Calls `Iq::try_from` on `e`; an error becomes `None`. The contract names
/// the outcome.
#[verifier::external_body]
pub(crate) fn parse_iq(e: Element) -> (r: Option<Iq>)
    ensures
        r == iq_payload(e),
{
    Iq::try_from(e).ok()
}

/// What `Delay::try_from` makes of a payload element: the note when the
/// element is a well-formed `<delay/>`.
pub uninterp spec fn delay_payload(e: Element) -> Option<Delay>;

/// The element that `Into<Element>` makes of a delay note.
pub uninterp spec fn delay_element(d: Delay) -> Element;

/// Calls `Delay::try_from` on `e`; an error becomes `None`. The contract
/// only names the outcome: it is a function of the element alone.
#[verifier::external_body]
pub(crate) fn parse_delay(e: Element) -> (r: Option<Delay>)
    ensures
        r == delay_payload(e),
{
    Delay::try_from(e).ok()
}

/// Calls `Into::<Element>::into` on the note; the contract names the result.
#[verifier::external_body]
pub(crate) fn delay_into_element(d: Delay) -> (r: Element)
    ensures
        r == delay_element(d),
{
    d.into()
}

/// Calls the derived `Delay::clone`, which copies every field, so the copy
/// equals the note it copies.
#[verifier::external_body]
pub(crate) fn clone_delay(d: &Delay) -> (r: Delay)
    ensures
        r == *d,
{
    d.clone()
}

} // verus!
