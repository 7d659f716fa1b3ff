use gnutbot::jid::Jid;
use gnutbot::plugins::{CommandM, Join, Quotes, Snack};
use gnutbot::sendable::{MessageType, SendMessage};

fn from(node: &str, domain: &str, resource: &str, body: &str) -> SendMessage {
    SendMessage {
        from: Some(Jid::full(node, domain, resource)),
        to: None,
        id: None,
        mtype: MessageType::Chat,
        body: Some(body.to_string()),
        subject: None,
        thread: None,
        delay: None,
    }
}

fn said(body: &str) -> SendMessage {
    from("alice", "example.org", "phone", body)
}

fn text(r: Option<SendMessage>) -> Option<String> {
    r.map(|m| m.body.unwrap())
}

#[test]
fn quote_add_then_read() {
    let mut q = Quotes::new(vec!["first".to_string()]);
    assert_eq!(text(q.answer(&said("^quote add to be  or not"), 0)).as_deref(), Some("Added new quote #1"));
    assert_eq!(q.quotes(), &vec!["first".to_string(), "to be or not ".to_string()]);
    assert_eq!(text(q.answer(&said("^quote 1"), 0)).as_deref(), Some("to be or not "));
    assert_eq!(text(q.answer(&said("^quote +0"), 0)).as_deref(), Some("first"));
}

#[test]
fn quote_errors() {
    let mut q = Quotes::new(vec![]);
    assert_eq!(text(q.answer(&said("^quote add   "), 0)).as_deref(), Some("Invalid quote"));
    assert_eq!(text(q.answer(&said("^quote 3"), 0)).as_deref(), Some("Invalid quote #3"));
    assert_eq!(text(q.answer(&said("^quote -1"), 0)).as_deref(), Some("Usage: ^quote <index>|add quote"));
    assert_eq!(text(q.answer(&said("^quote"), 5)), None);
    assert_eq!(text(q.answer(&said("hello"), 5)), None);
    assert!(q.quotes().is_empty());
}

#[test]
fn quote_random_pick_uses_the_draw() {
    let mut q = Quotes::new(vec!["a".to_string(), "b".to_string(), "c".to_string()]);
    assert_eq!(text(q.answer(&said("^quote"), 4)).as_deref(), Some("b"));
    assert_eq!(text(q.answer(&said("^quotes"), 2)).as_deref(), Some("c"));
    let r = q.call(said("^quote"));
    assert!(["a", "b", "c"].contains(&text(r).unwrap().as_str()));
    assert_eq!(text(q.call(said("^quote add x"))).as_deref(), Some("Added new quote #3"));
}

#[test]
fn quote_reply_keeps_message_fields() {
    let mut q = Quotes::new(vec!["a".to_string()]);
    let mut m = said("^quote 0");
    m.id = Some("id7".to_string());
    let r = q.answer(&m, 0).unwrap();
    assert_eq!(r.id.as_deref(), Some("id7"));
    assert!(r.to.is_none() && r.from.is_none());
}

#[test]
fn dice_throws() {
    assert_eq!(text(CommandM::answer(&said("^throw 1d6"), &vec![8])).as_deref(), Some("3"));
    assert_eq!(text(CommandM::answer(&said("^throw 3d6"), &vec![0, 5, 13])).as_deref(), Some("[1, 6, 2] | 9"));
    assert_eq!(text(CommandM::answer(&said("^^throw 0d0"), &vec![])).as_deref(), Some("[] | 0"));
    assert_eq!(text(CommandM::answer(&said("^throw 256d6"), &vec![])).as_deref(), Some("How about no?"));
}

#[test]
fn dice_usage() {
    let usage = Some("Usage: ^throw [X]d[Y], e.g. 6d20 to throw 6 20-sided dice");
    for body in ["^throw", "^throw d6", "^throw 2d", "^throw 2x6", "^throw 2d6d1", "^throw -1d6"] {
        assert_eq!(text(CommandM::answer(&said(body), &vec![])).as_deref(), usage, "{}", body);
    }
    assert_eq!(text(CommandM::answer(&said("^roll 2d6"), &vec![])), None);
    assert_eq!(text(CommandM::answer(&said("throw 2d6"), &vec![])), None);
}

#[test]
fn dice_refuses_what_would_fail() {
    assert!(!CommandM::can_answer(&said("^throw 1d0")));
    assert!(!CommandM::can_answer(&said("^throw 2d18446744073709551615")));
    assert!(CommandM::can_answer(&said("^throw 1d18446744073709551615")));
    assert!(CommandM::can_answer(&said("^throw 0d0")));
    assert!(CommandM::can_answer(&said("^throw 300d0")));
    assert!(CommandM::can_answer(&said("hello")));
}

#[test]
fn dice_call_draws() {
    let mut c = CommandM::new();
    let r = text(c.call(said("^throw 4d3"))).unwrap();
    assert!(r.starts_with('[') && r.contains(" | "));
    let n: u64 = text(c.call(said("^throw 1d6"))).unwrap().parse().unwrap();
    assert!((1..=6).contains(&n));
}

#[test]
fn snack_answers() {
    let s = Snack::new();
    assert_eq!(text(s.answer(&said("^goodbot"), 0)).as_deref(), Some(">^.^<"));
    assert_eq!(text(s.answer(&said("^botsnack"), 5)).as_deref(), Some("/me happily noms in the corner"));
    assert_eq!(text(s.answer(&said("^botsnack"), 3)).as_deref(), Some("^humansnack"));
    assert_eq!(text(s.answer(&said("snack"), 3)), None);
    let mut s = Snack::new();
    assert!(s.call(said("^botsnack please")).is_some());
}

#[test]
fn owner_sends_bot_into_rooms() {
    let mut j = Join::new();
    let m = from("dean4devil", "paranoidlabs.org", "laptop", "^join room conference.example.org");
    assert!(Join::can_answer(&m));
    let target = j.call(m).unwrap();
    assert!(target.same(&Jid::full("room", "conference.example.org", "gnutbot")));
    let other = from("mallory", "paranoidlabs.org", "laptop", "^join room conference.example.org");
    assert!(j.call(other).is_none());
    let short = from("dean4devil", "paranoidlabs.org", "laptop", "^join room");
    assert!(j.call(short).is_none());
    let glued = from("dean4devil", "paranoidlabs.org", "x", "^joinXroom server");
    assert!(j.call(glued).unwrap().same(&Jid::full("room", "server", "gnutbot")));
}

#[test]
fn join_refuses_what_would_fail() {
    assert!(!Join::can_answer(&from("dean4devil", "paranoidlabs.org", "x", "^join")));
    assert!(!Join::can_answer(&from("dean4devil", "paranoidlabs.org", "x", "^joinä room server")));
    assert!(Join::can_answer(&from("someone", "paranoidlabs.org", "x", "^join")));
}

#[test]
fn quote_reads_back_after_other_calls() {
    let mut q = Quotes::new(vec!["zero".to_string()]);
    assert_eq!(text(q.answer(&said("^quote add hello there"), 0)).as_deref(), Some("Added new quote #1"));
    assert!(q.answer(&said("something else"), 0).is_none());
    assert_eq!(text(q.answer(&said("^quote add more"), 0)).as_deref(), Some("Added new quote #2"));
    assert_eq!(text(q.answer(&said("^quote 9"), 0)).as_deref(), Some("Invalid quote #9"));
    assert_eq!(text(q.answer(&said("^quote 1"), 0)).as_deref(), Some("hello there "));
}

#[test]
fn dice_answer_takes_what_the_draws_allow() {
    assert_eq!(text(CommandM::answer(&said("^throw 2d18446744073709551615"), &vec![0, 0])).as_deref(), Some("[1, 1] | 2"));
}

#[test]
fn reported_quote_number_reads_back() {
    let mut q = Quotes::new((0..12).map(|i| format!("q{}", i)).collect());
    let added = text(q.answer(&said("^quote   add  tenth   of them"), 0)).unwrap();
    assert_eq!(added, "Added new quote #12");
    assert!(q.answer(&said("^quote add another"), 0).is_some());
    let number = added.trim_start_matches("Added new quote #");
    assert_eq!(text(q.answer(&said(&format!("^quote {}", number)), 0)).as_deref(), Some("tenth of them "));
}
