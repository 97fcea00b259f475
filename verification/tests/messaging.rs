use elisym_core::dedup::{BoundedDedup, DEDUP_CAPACITY};
use elisym_core::event::{Event, EventDraft};
use elisym_core::messaging::{MessagingService, PingEvent, PrivateMessage};
use elisym_core::number::{decimal_text, hexadecimal_text, parse_u16};

fn service(key: &str) -> MessagingService {
    MessagingService::new(key.to_string())
}

fn sent(id: &str, author: &str, draft: EventDraft) -> Event {
    Event {
        id: id.to_string(),
        pubkey: author.to_string(),
        created_at: 5,
        kind: draft.kind,
        tags: draft.tags,
        content: draft.content,
    }
}

fn with_kind(id: &str, kind: u16) -> Event {
    sent(id, "x", EventDraft { kind, content: String::new(), tags: vec![] })
}

#[test]
fn ping_text_is_exact() {
    let draft = service("me").send_ping("you", "n\"1");
    assert_eq!(draft.kind, 20200);
    assert_eq!(draft.content, r#"{"nonce":"n\"1","type":"elisym_ping"}"#);
    assert_eq!(draft.tags, vec![vec!["p".to_string(), "you".to_string()]]);
    let draft = service("me").send_pong("you", "7");
    assert_eq!(draft.kind, 20201);
    assert_eq!(draft.content, r#"{"nonce":"7","type":"elisym_pong"}"#);
    assert_eq!(draft.tags, vec![vec!["p".to_string(), "you".to_string()]]);
}

#[test]
fn ping_is_answered() {
    let alice = service("alice");
    let bob = service("bob");
    let session = alice.ping_agent("bob", 0xabc, 0x1f);
    assert_eq!(session.nonce, "abc1f");
    let ping = sent("1", "alice", alice.send_ping("bob", &session.nonce));
    let (sender, nonce) = bob.subscribe_to_pings().on_event(&ping).unwrap();
    assert_eq!(sender, "alice");
    assert_eq!(nonce, session.nonce);
    let pong = sent("2", "bob", bob.send_pong(&sender, &nonce));
    assert_eq!(session.on_event(&PingEvent::Received(pong)), Some(true));
}

#[test]
fn other_events_are_no_pong() {
    let alice = service("alice");
    let bob = service("bob");
    let session = alice.ping_agent("bob", 1, 2);
    let received = |event: Event| session.on_event(&PingEvent::Received(event));
    assert_eq!(received(sent("1", "bob", bob.send_pong("alice", "13"))), None);
    assert_eq!(received(sent("1", "eve", bob.send_pong("alice", "12"))), None);
    assert_eq!(received(sent("1", "bob", bob.send_pong("carol", "12"))), None);
    assert_eq!(received(sent("1", "bob", bob.send_ping("alice", "12"))), None);
    let mut disguised = sent("1", "bob", bob.send_ping("alice", "12"));
    disguised.kind = 20201;
    assert_eq!(received(disguised), None);
    let mut garbled = sent("1", "bob", bob.send_pong("alice", "12"));
    garbled.content = "[1]".to_string();
    assert_eq!(received(garbled), None);
    assert_eq!(session.on_event(&PingEvent::Lagged), None);
    assert_eq!(session.on_event(&PingEvent::Closed), Some(false));
    assert_eq!(session.on_event(&PingEvent::TimedOut), Some(false));
}

#[test]
fn pings_are_delivered_once() {
    let alice = service("alice");
    let bob = service("bob");
    let mut feed = bob.subscribe_to_pings();
    let ping = || sent("1", "alice", alice.send_ping("bob", "n"));
    assert!(feed.on_event(&ping()).is_some());
    assert!(feed.on_event(&ping()).is_none());
    // The same id under another kind is not remembered.
    assert!(feed.on_event(&with_kind("2", 20201)).is_none());
    assert!(feed.on_event(&sent("2", "alice", alice.send_ping("bob", "n"))).is_some());
}

#[test]
fn other_events_are_no_ping() {
    let alice = service("alice");
    let bob = service("bob");
    let mut feed = bob.subscribe_to_pings();
    assert!(feed.on_event(&sent("1", "alice", alice.send_ping("carol", "n"))).is_none());
    assert!(feed.on_event(&sent("2", "alice", alice.send_pong("bob", "n"))).is_none());
    for (id, content) in [
        ("3", r#"{"type":"elisym_ping"}"#),
        ("4", r#"{"type":"elisym_ping","nonce":7}"#),
        ("5", r#"{"type":"elisym_pong","nonce":"7"}"#),
        ("6", r#"{"type":null,"nonce":"7"}"#),
        ("7", "not JSON"),
    ] {
        let mut event = sent(id, "alice", alice.send_ping("bob", "n"));
        event.content = content.to_string();
        assert!(feed.on_event(&event).is_none(), "{}", content);
    }
    let mut event = sent("8", "alice", alice.send_ping("bob", "n"));
    event.content = r#" {"extra":[1,{}],"nonce":"x","type":"elisym_ping"} "#.to_string();
    assert_eq!(feed.on_event(&event), Some(("alice".to_string(), "x".to_string())));
    let mut event = sent("9", "alice", alice.send_ping("bob", "n"));
    event.tags = vec![
        vec!["p".to_string()],
        vec!["e".to_string(), "bob".to_string()],
        vec!["p".to_string(), "bob".to_string(), "relay".to_string()],
    ];
    assert!(feed.on_event(&event).is_some());
}

#[test]
fn gift_wraps_are_unwrapped_once() {
    let mut feed = service("me").subscribe_to_messages();
    assert!(feed.on_event(&with_kind("1", 1059)));
    assert!(!feed.on_event(&with_kind("1", 1059)));
    // An event of another kind is remembered too.
    assert!(!feed.on_event(&with_kind("2", 1)));
    assert!(!feed.on_event(&with_kind("2", 1059)));
    assert!(feed.on_event(&with_kind("3", 1059)));
}

#[test]
fn subscriptions_ask_for_what_is_addressed_to_the_agent() {
    let service = service("me");
    let mine = vec![vec!["p".to_string(), "me".to_string()]];
    let query = service.messages_query(200_000);
    assert_eq!(query.kind, 1059);
    assert_eq!(query.since, Some(27_200));
    assert_eq!(query.tags, mine);
    assert_eq!(query.author, None);
    assert_eq!(service.messages_query(5).since, Some(0));
    let query = service.pings_query();
    assert_eq!((query.kind, query.since, query.tags), (20200, None, mine.clone()));
    let query = service.pongs_query();
    assert_eq!((query.kind, query.since, query.tags), (20201, None, mine));
}

#[test]
fn repeated_events_are_handed_on_once() {
    let mut feed = service("me").subscribe_to_messages();
    let mut handed_on: Vec<String> = Vec::new();
    for round in 0..3 {
        for id in ["a", "b", "c"] {
            let kind = if id == "b" && round == 0 { 1 } else { 1059 };
            if feed.on_event(&with_kind(id, kind)) {
                handed_on.push(id.to_string());
            }
        }
    }
    assert_eq!(handed_on, vec!["a".to_string(), "c".to_string()]);
}

#[test]
fn the_oldest_id_is_forgotten() {
    let mut dedup = BoundedDedup::new(2);
    assert!(dedup.insert("a"));
    assert!(dedup.insert("b"));
    assert!(!dedup.insert("a"));
    assert!(dedup.insert("c"));
    assert!(!dedup.insert("b"));
    assert!(dedup.insert("a"));
    let mut none = BoundedDedup::new(0);
    assert!(none.insert("a"));
    assert!(none.insert("a"));
    assert!(DEDUP_CAPACITY > 0);
}

#[test]
fn messages_hold_what_was_unwrapped() {
    let message =
        PrivateMessage { sender: "a".to_string(), content: "hi".to_string(), timestamp: 3 };
    let copy = message.clone();
    assert_eq!((copy.sender, copy.content, copy.timestamp), (message.sender, message.content, 3));
}

#[test]
fn numbers_are_written_and_read() {
    assert_eq!(decimal_text(0), "0");
    assert_eq!(decimal_text(u64::MAX), "18446744073709551615");
    assert_eq!(hexadecimal_text(0), "0");
    assert_eq!(hexadecimal_text(u128::MAX), format!("{:x}", u128::MAX));
    for text in ["0", "65535", "65536", "+7", "-1", "", "+", "007", "1 ", "\u{663}", "99999999999"] {
        assert_eq!(parse_u16(text), text.parse::<u16>().ok(), "{}", text);
    }
}
