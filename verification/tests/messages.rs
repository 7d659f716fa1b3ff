use gnutbot::command::{answer_to, cleanup, make_reply, Broadcast, Combinator, CombinatorModule, FlushStep, PollStep, SendStep};
use gnutbot::jid::Jid;
use gnutbot::sendable::{LangMap, Message, MessageType, SendMessage};
use xmpp_parsers::Element;

fn jid(node: &str, domain: &str, resource: Option<&str>) -> Jid {
    Jid { node: Some(node.to_string()), domain: domain.to_string(), resource: resource.map(|r| r.to_string()) }
}

fn message(body: &str, mtype: MessageType) -> SendMessage {
    SendMessage {
        from: Some(jid("alice", "example.org", Some("phone"))),
        to: Some(jid("bot", "example.org", None)),
        id: Some("m1".to_string()),
        mtype,
        body: Some(body.to_string()),
        subject: Some("topic".to_string()),
        thread: Some("t1".to_string()),
        delay: None,
    }
}

fn delay_element() -> Element {
    "<delay xmlns='urn:xmpp:delay' stamp='2002-09-10T23:08:25Z'/>".parse().unwrap()
}

fn lang_map(entries: &[(&str, &str)]) -> LangMap<String> {
    let mut m = LangMap::new();
    for (k, v) in entries {
        m.insert(k.to_string(), v.to_string());
    }
    m
}

fn stanza(bodies: &[(&str, &str)], payloads: Vec<Element>) -> Message {
    Message {
        from: Some(jid("alice", "example.org", Some("phone"))),
        to: None,
        id: Some("x".to_string()),
        type_: MessageType::Chat,
        bodies: lang_map(bodies),
        subjects: LangMap::new(),
        thread: None,
        payloads,
    }
}

#[test]
fn jids_compare_part_by_part() {
    let full = Jid::full("alice", "example.org", "phone");
    let bare = full.clone().into_bare_jid();
    assert!(bare.same(&Jid::bare("alice", "example.org")));
    assert!(!full.same(&bare));
    assert_eq!(full.resource.as_deref(), Some("phone"));
    assert_eq!(bare.resource, None);
}

#[test]
fn lang_map_insert_replaces() {
    let mut m = lang_map(&[("en", "hello"), ("de", "hallo")]);
    m.insert("en".to_string(), "hi".to_string());
    assert_eq!(m.len(), 2);
    assert_eq!(m.find("en"), Some(0));
    assert_eq!(m.find("fr"), None);
    let e = m.into_entries();
    assert_eq!(e, vec![("en".to_string(), "hi".to_string()), ("de".to_string(), "hallo".to_string())]);
}

#[test]
fn best_prefers_the_first_listed_language() {
    let mut m = lang_map(&[("de", "hallo"), ("fr", "salut"), ("en", "hello")]);
    assert_eq!(SendMessage::get_best(&mut m, vec!["fr", "en"]), Some("salut".to_string()));
    assert_eq!(m.len(), 2);
    assert_eq!(m.find("fr"), None);
}

#[test]
fn best_falls_back_to_untagged_then_smallest() {
    let mut m = lang_map(&[("de", "hallo"), ("", "plain"), ("ca", "hola")]);
    assert_eq!(SendMessage::get_best(&mut m, vec!["en"]), Some("plain".to_string()));
    assert_eq!(SendMessage::get_best(&mut m, vec!["en"]), Some("hola".to_string()));
    assert_eq!(SendMessage::get_best(&mut m, vec!["en"]), Some("hallo".to_string()));
    assert_eq!(SendMessage::get_best(&mut m, vec!["en"]), None);
}

#[test]
fn best_body_and_subject_use_their_maps() {
    let mut t = stanza(&[("en", "hi"), ("de", "hallo")], vec![]);
    t.subjects.insert("de".to_string(), "Betreff".to_string());
    assert_eq!(SendMessage::get_best_body(&mut t, vec!["de"]), Some("hallo".to_string()));
    assert_eq!(SendMessage::get_best_subject(&mut t, vec!["en"]), Some("Betreff".to_string()));
    assert_eq!(t.bodies.len(), 1);
    assert_eq!(t.subjects.len(), 0);
}

#[test]
fn delay_is_found_from_the_end() {
    let other: Element = "<x xmlns='jabber:x:oob'/>".parse().unwrap();
    let other2: Element = "<y xmlns='urn:example'/>".parse().unwrap();
    let mut t = stanza(&[], vec![other.clone(), delay_element(), other2]);
    let d = SendMessage::get_delay(&mut t);
    assert!(d.is_some());
    assert_eq!(t.payloads.len(), 1);
    assert_eq!(t.payloads[0], other);
    let mut t = stanza(&[], vec![other]);
    assert!(SendMessage::get_delay(&mut t).is_none());
    assert!(t.payloads.is_empty());
}

#[test]
fn flattening_and_building_messages() {
    let t = stanza(&[("de", "hallo"), ("en", "hello")], vec![delay_element()]);
    let s = SendMessage::from_message(t);
    assert_eq!(s.body.as_deref(), Some("hello"));
    assert_eq!(s.subject, None);
    assert_eq!(s.id.as_deref(), Some("x"));
    assert!(s.delay.is_some());
    let copy = s.clone();
    assert_eq!(format!("{:?}", copy.delay), format!("{:?}", s.delay));
    let m = s.into_message();
    assert_eq!(m.bodies.into_entries(), vec![("en".to_string(), "hello".to_string())]);
    assert_eq!(m.payloads.len(), 1);
    assert_eq!(m.payloads[0].name(), "delay");
    let back = SendMessage::from_message(stanza(&[("en", "hello")], m.payloads));
    assert_eq!(format!("{:?}", back.delay), format!("{:?}", copy.delay));
}

#[test]
fn replies_keep_the_conversation() {
    let msg = message("^quote", MessageType::Chat);
    let r = make_reply(&msg, "answer".to_string());
    assert_eq!(r.body.as_deref(), Some("answer"));
    assert!(r.from.is_none() && r.to.is_none());
    assert_eq!(r.id.as_deref(), Some("m1"));
    assert_eq!(r.thread.as_deref(), Some("t1"));
    assert_eq!(r.subject.as_deref(), Some("topic"));
}

#[test]
fn direct_replies_go_back_to_the_sender() {
    let msg = message("hi", MessageType::Chat);
    let r = cleanup(msg.clone(), make_reply(&msg, "yo".to_string()));
    assert!(r.to.unwrap().same(&jid("alice", "example.org", Some("phone"))));
    assert!(r.from.is_none());
    assert_eq!(r.mtype, MessageType::Chat);
}

#[test]
fn group_replies_go_to_the_room() {
    let mut msg = message("hi", MessageType::Groupchat);
    msg.from = Some(jid("room", "conference.example.org", Some("alice")));
    let r = answer_to(msg.clone(), Some(make_reply(&msg, "yo".to_string()))).unwrap();
    assert!(r.to.unwrap().same(&jid("room", "conference.example.org", None)));
    assert_eq!(r.mtype, MessageType::Groupchat);
    assert!(answer_to(msg, None).is_none());
}

#[test]
fn combinator_hands_over_one_message() {
    let mut c: Combinator<(), u32> = Combinator::new(());
    assert!(matches!(c.poll(), PollStep::Empty));
    c.park_receiver(7);
    match c.start_send(message("one", MessageType::Chat)) {
        SendStep::Accepted { wake } => assert_eq!(wake, Some(7)),
        _ => panic!("slot was empty"),
    }
    match c.start_send(message("two", MessageType::Chat)) {
        SendStep::Full { item, wake } => {
            assert_eq!(item.body.as_deref(), Some("two"));
            assert_eq!(wake, None);
        }
        _ => panic!("slot was full"),
    }
    c.park_sender(9);
    assert!(matches!(c.poll_complete(), FlushStep::Pending { wake: None }));
    match c.poll() {
        PollStep::Dispatch { item, wake } => {
            assert_eq!(item.body.as_deref(), Some("one"));
            assert_eq!(wake, Some(9));
        }
        _ => panic!("a message was waiting"),
    }
    assert!(matches!(c.poll_complete(), FlushStep::Done));
}

#[test]
fn delayed_messages_are_not_broadcast() {
    let module: CombinatorModule<(), ()> = CombinatorModule::new();
    let mut m = message("hi", MessageType::Chat);
    assert_eq!(module.plan(&m, &vec![false, false]), Broadcast::Send);
    let mut t = stanza(&[], vec![delay_element()]);
    m.delay = SendMessage::get_delay(&mut t);
    assert_eq!(module.plan(&m, &vec![true]), Broadcast::Drop);
}
