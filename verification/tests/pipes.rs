use gnutbot::into_stream::{self, FuturePoll, StreamPoll};
use gnutbot::first_ready::{next_source, PollNext, SourcePoll};
use gnutbot::jid::Jid;
use gnutbot::pipes::{accept_stanza, route_stanza, ready_from, ChannelHandler, ChatCmd, ChatPipe, ChatRoute, Dispatch, Stanza, StanzaKind};
use gnutbot::sendable::{LangMap, Message, MessageType};

fn chat(mtype: MessageType, to: Option<Jid>) -> Message {
    Message {
        from: None,
        to,
        id: None,
        type_: mtype,
        bodies: LangMap::new(),
        subjects: LangMap::new(),
        thread: None,
        payloads: vec![],
    }
}

#[test]
fn stanzas_are_routed_by_name() {
    assert_eq!(route_stanza("message"), StanzaKind::Message);
    assert_eq!(route_stanza("presence"), StanzaKind::Presence);
    assert_eq!(route_stanza("iq"), StanzaKind::Iq);
    assert_eq!(route_stanza("stream:features"), StanzaKind::Other);
}

#[test]
fn chat_messages_are_routed_by_type() {
    let p: ChatPipe<u8, ()> = ChatPipe::new(0, ());
    assert_eq!(p.route(&chat(MessageType::Chat, None)), ChatRoute::Direct);
    assert_eq!(p.route(&chat(MessageType::Groupchat, Some(Jid::bare("r", "s")))), ChatRoute::Direct);
    assert_eq!(p.route(&chat(MessageType::Groupchat, None)), ChatRoute::Drop);
    assert_eq!(p.route(&chat(MessageType::Headline, Some(Jid::bare("r", "s")))), ChatRoute::Drop);
    assert_eq!(p.route(&chat(MessageType::Normal, None)), ChatRoute::Drop);
}

#[test]
fn rooms_are_keyed_by_bare_jid() {
    let mut p: ChatPipe<u8, ()> = ChatPipe::new(0, ());
    assert_eq!(p.join(Jid::full("room", "conf", "me"), 1), None);
    assert_eq!(p.join(Jid::full("other", "conf", "me"), 2), None);
    assert_eq!(p.join(Jid::full("room", "conf", "you"), 3), Some(1));
    assert_eq!(p.room_count(), 2);
    assert_eq!(*p.room_handler(0), 3);
    *p.room_handler(1) = 5;
    assert_eq!(p.leave(Jid::bare("room", "conf")), Some(3));
    assert_eq!(p.leave(Jid::bare("room", "conf")), None);
    assert_eq!(p.apply(ChatCmd::Leave(Jid::full("other", "conf", "x"))), Some(5));
    assert_eq!(p.room_count(), 0);
    assert_eq!(p.apply(ChatCmd::Join(Jid::bare("a", "b"), 9)), None);
    assert_eq!(*p.direct_handler(), 0);
    *p.direct_handler() = 4;
    assert_eq!(*p.direct_handler(), 4);
    assert_eq!(*p.command_source(), ());
}

#[test]
fn dispatch_opens_after_a_flush() {
    let mut d = Dispatch::new("sink");
    assert!(!d.admits());
    d.flushed();
    assert!(d.admits());
    assert_eq!(d.inner, "sink");
}

#[test]
fn channel_keeps_module_order() {
    let mut h: ChannelHandler<u8, char> = ChannelHandler::new_with_modules(vec![1, 2, 3], vec!['a', 'b']);
    assert_eq!(h.dispatch.iter().map(|d| d.inner).collect::<Vec<_>>(), vec![1, 2, 3]);
    assert_eq!(h.select.iter().map(|s| s.stream).collect::<Vec<_>>(), vec!['a', 'b']);
    assert!(h.dispatch.iter().all(|d| !d.admits()));
    h.add_sink(4);
    h.add_stream('c');
    assert_eq!(h.dispatch.len(), 4);
    assert_eq!(h.select[2].stream, 'c');
    let empty: ChannelHandler<u8, char> = ChannelHandler::new();
    assert!(empty.dispatch.is_empty() && empty.select.is_empty());
}

#[test]
fn readiness_is_or_ed() {
    assert!(ready_from(true, &vec![false, false]));
    assert!(!ready_from(false, &vec![false, false]));
    assert!(ready_from(false, &vec![false, true]));
    assert!(!ready_from(false, &vec![]));
}

#[test]
fn future_stream_gives_one_outcome() {
    let mut s = into_stream::new("fut");
    let r: StreamPoll<u8, ()> = s.record(FuturePoll::NotReady);
    assert!(matches!(r, StreamPoll::NotReady));
    assert_eq!(s.future, Some("fut"));
    let r: StreamPoll<u8, ()> = s.record(FuturePoll::Ready(Some(4)));
    assert!(matches!(r, StreamPoll::Ready(Some(4))));
    assert_eq!(s.future, None);
    assert!(matches!(s.poll_finished::<u8, ()>(), StreamPoll::Ready(None)));
    let mut e = into_stream::new(1u8);
    let r: StreamPoll<u8, &str> = e.record(FuturePoll::Failed("boom"));
    assert!(matches!(r, StreamPoll::Failed("boom")));
    assert!(e.future.is_none());
}

fn element(xml: &str) -> xmpp_parsers::Element {
    xml.parse().unwrap()
}

#[test]
fn stanzas_are_parsed_for_their_pipe() {
    let m = accept_stanza(element("<message xmlns='jabber:client' from='a@b/c' type='groupchat'><body>^quote</body><body xml:lang='de'>x</body></message>"));
    match m {
        Stanza::Message(m) => {
            assert_eq!(m.type_, MessageType::Groupchat);
            assert!(m.from.unwrap().same(&Jid::full("a", "b", "c")));
            assert_eq!(m.bodies.len(), 2);
            assert_eq!(m.bodies.find(""), Some(0));
        }
        _ => panic!("a message"),
    }
    assert!(matches!(accept_stanza(element("<presence xmlns='jabber:client'/>")), Stanza::Presence(_)));
    assert!(matches!(accept_stanza(element("<iq xmlns='jabber:client' type='get' id='1'><ping xmlns='urn:xmpp:ping'/></iq>")), Stanza::Iq(_)));
    assert!(matches!(accept_stanza(element("<iq xmlns='jabber:client'/>")), Stanza::Dropped));
    assert!(matches!(accept_stanza(element("<features xmlns='jabber:client'/>")), Stanza::Dropped));
    assert!(matches!(accept_stanza(element("<message xmlns='urn:other'/>")), Stanza::Dropped));
}

#[test]
fn left_room_keeps_other_rooms() {
    let mut p: ChatPipe<u8, ()> = ChatPipe::new(0, ());
    assert_eq!(p.join(Jid::full("room", "conf", "me"), 1), None);
    assert_eq!(p.join(Jid::bare("a", "conf"), 2), None);
    assert_eq!(p.join(Jid::bare("b", "conf"), 3), None);
    assert_eq!(p.leave(Jid::bare("a", "conf")), Some(2));
    assert_eq!(p.leave(Jid::full("room", "conf", "other")), Some(1));
    assert_eq!(p.leave(Jid::bare("room", "conf")), None);
    assert_eq!(p.room_count(), 1);
    assert_eq!(*p.room_handler(0), 3);
}

#[test]
fn first_ready_source_answers() {
    assert_eq!(next_source(0, 3, SourcePoll::<u8>::Pending), PollNext::Next(1));
    assert_eq!(next_source(1, 3, SourcePoll::Ready(7u8)), PollNext::Answer(7));
    assert_eq!(next_source(2, 3, SourcePoll::<u8>::Pending), PollNext::Pending);
    assert_eq!(next_source(0, 1, SourcePoll::Ready(Some(2u8))), PollNext::Answer(Some(2)));
}

#[test]
fn stream_polls_one_outcome_then_ends() {
    let mut s = into_stream::new("fut");
    let r: StreamPoll<u8, ()> = s.poll_with(FuturePoll::NotReady);
    assert!(matches!(r, StreamPoll::NotReady));
    assert_eq!(s.future, Some("fut"));
    let r: StreamPoll<u8, ()> = s.poll_with(FuturePoll::NotReady);
    assert!(matches!(r, StreamPoll::NotReady));
    let r: StreamPoll<u8, ()> = s.poll_with(FuturePoll::Ready(Some(3)));
    assert!(matches!(r, StreamPoll::Ready(Some(3))));
    assert_eq!(s.future, None);
    let r: StreamPoll<u8, ()> = s.poll_with(FuturePoll::Ready(Some(9)));
    assert!(matches!(r, StreamPoll::Ready(None)));
    let r: StreamPoll<u8, ()> = s.poll_with(FuturePoll::NotReady);
    assert!(matches!(r, StreamPoll::Ready(None)));
}
