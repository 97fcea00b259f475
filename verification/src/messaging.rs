//! Private messages, and ephemeral pings and pongs (kind 20200/20201).
use vstd::prelude::*;

use crate::dedup::{lemma_room_for_all, lie_in, remember, BoundedDedup, DEDUP_CAPACITY};
use crate::event::{
    make_tag, tag_of, tag_value_is_held_by_a_tag, tag_values, values_of, Event, EventDraft, EventDraftView, EventView,
    RelayFilter, RelayFilterView, KIND_GIFT_WRAP, KIND_PING, KIND_PONG,
};
use crate::json::{
    distinct_names, json_object_text, json_text_under, lemma_by_name, scalar_views, text_under,
    write_json_object, JsonMemberView, JsonScalar, JsonScalarView,
};
use crate::number::{hexadecimal, hexadecimal_text};
use crate::text::{list_contains, same_text, text_lists};

verus! {

/// A received private message.
#[derive(Debug, Clone)]
pub struct PrivateMessage {
    /// The sender's public key in hexadecimal.
    pub sender: String,
    pub content: String,
    pub timestamp: u64,
}

/// Gift wraps have a randomized creation time of up to two days in the past (NIP-59), in
/// seconds.
pub const GIFT_WRAP_WINDOW_SECS: u64 = 172_800;

/// The members of a ping or pong.
pub open spec fn signal_members(signal: Seq<char>, nonce: Seq<char>) -> Seq<JsonMemberView> {
    seq![
        ("nonce"@, Some(JsonScalarView::Text(nonce))),
        ("type"@, Some(JsonScalarView::Text(signal))),
    ]
}

/// Whether a draft is a ping or pong of the given kind to `recipient`.
pub open spec fn is_signal(
    draft: EventDraftView,
    kind: u16,
    signal: Seq<char>,
    recipient: Seq<char>,
    nonce: Seq<char>,
) -> bool {
    &&& draft.kind == kind
    &&& draft.content == json_object_text(signal_members(signal, nonce))
    &&& text_under(draft.content, "type"@) == Some(signal)
    &&& text_under(draft.content, "nonce"@) == Some(nonce)
    &&& draft.tags == seq![tag_of("p"@, recipient)]
}

/// Whether an event is addressed to the given key.
pub open spec fn is_addressed_to(event: EventView, public_key: Seq<char>) -> bool {
    tag_values(event.tags, "p"@).contains(public_key)
}

/// The sender and nonce of a ping to the given key, where an event is one.
pub open spec fn ping_in(event: EventView, public_key: Seq<char>) -> Option<
    (Seq<char>, Seq<char>),
> {
    if event.kind == KIND_PING && is_addressed_to(event, public_key) && text_under(
        event.content,
        "type"@,
    ) == Some("elisym_ping"@) {
        match text_under(event.content, "nonce"@) {
            Some(nonce) => Some((event.pubkey, nonce)),
            None => None,
        }
    } else {
        None
    }
}

/// Whether an event is the pong of `target` to a ping of the given key with the given nonce.
pub open spec fn is_pong(
    event: EventView,
    public_key: Seq<char>,
    target: Seq<char>,
    nonce: Seq<char>,
) -> bool {
    &&& event.kind == KIND_PONG
    &&& is_addressed_to(event, public_key)
    &&& event.pubkey == target
    &&& text_under(event.content, "type"@) == Some("elisym_pong"@)
    &&& text_under(event.content, "nonce"@) == Some(nonce)
}

/// Whether an event is a sent draft of the given author.
pub open spec fn carries(event: EventView, draft: EventDraftView, author: Seq<char>) -> bool {
    &&& event.kind == draft.kind
    &&& event.content == draft.content
    &&& event.tags == draft.tags
    &&& event.pubkey == author
}

/// The draft of a ping or pong.
fn make_signal(kind: u16, signal: &str, recipient: &str, nonce: &str) -> (draft: EventDraft)
    ensures
        is_signal(draft@, kind, signal@, recipient@, nonce@),
{
    let mut members: Vec<(String, JsonScalar)> = Vec::new();
    members.push(("nonce".to_owned(), JsonScalar::Text(nonce.to_owned())));
    members.push(("type".to_owned(), JsonScalar::Text(signal.to_owned())));
    let ghost views = signal_members(signal@, nonce@);
    proof {
        reveal_strlit("nonce");
        reveal_strlit("type");
        assert(scalar_views(members@) =~= views);
        assert("nonce"@.len() != "type"@.len());
        assert(distinct_names(views));
        lemma_by_name(views);
        assert(views[0].0 == "nonce"@ && views[1].0 == "type"@);
    }
    let content = write_json_object(&members);
    let mut tags: Vec<Vec<String>> = Vec::new();
    tags.push(make_tag("p", recipient));
    assert(text_lists(tags@) =~= seq![tag_of("p"@, recipient@)]);
    EventDraft { kind, content, tags }
}

/// Whether an event's tags address it to the given key.
fn addressed_to(event: &Event, public_key: &str) -> (yes: bool)
    ensures
        yes == is_addressed_to(event@, public_key@),
{
    list_contains(&values_of(&event.tags, "p"), public_key)
}

/// Whether the text under `name` in a JSON object is `value`.
fn has_text_under(content: &str, name: &str, value: &str) -> (yes: bool)
    ensures
        yes == (text_under(content@, name@) == Some(value@)),
{
    match json_text_under(content, name) {
        Some(found) => same_text(found.as_str(), value),
        None => false,
    }
}

/// Service for NIP-17 private messaging between agents.
#[derive(Debug, Clone)]
pub struct MessagingService {
    /// The agent's own public key in hexadecimal.
    pub public_key: String,
}

/// What a relay is asked for: events of one kind that are addressed to the given key.
pub open spec fn addressed_filter(
    kind: u16,
    public_key: Seq<char>,
    since: Option<u64>,
) -> RelayFilterView {
    RelayFilterView { kind, author: None, since, tags: seq![tag_of("p"@, public_key)] }
}

impl MessagingService {
    pub fn new(public_key: String) -> (service: Self)
        ensures
            service.public_key == public_key,
    {
        MessagingService { public_key }
    }

    /// What a relay is asked for: events of one kind that are addressed to this agent.
    fn query(&self, kind: u16, since: Option<u64>) -> (query: RelayFilter)
        ensures
            query@ == addressed_filter(kind, self.public_key@, since),
    {
        let mut tags: Vec<Vec<String>> = Vec::new();
        tags.push(make_tag("p", self.public_key.as_str()));
        assert(text_lists(tags@) =~= seq![tag_of("p"@, self.public_key@)]);
        RelayFilter { kind, author: None, since, tags }
    }

    /// What a subscription to incoming private messages asks the relays for.
    ///
    /// NIP-59 gift wraps use a randomized creation time for privacy, so the window is wide:
    /// it begins two days before `now`.
    pub fn messages_query(&self, now: u64) -> (query: RelayFilter)
        ensures
            query@ == addressed_filter(
                KIND_GIFT_WRAP,
                self.public_key@,
                Some(if now >= GIFT_WRAP_WINDOW_SECS {
                    (now - GIFT_WRAP_WINDOW_SECS) as u64
                } else {
                    0
                }),
            ),
    {
        self.query(KIND_GIFT_WRAP, Some(now.saturating_sub(GIFT_WRAP_WINDOW_SECS)))
    }

    /// A subscription to incoming private messages.
    pub fn subscribe_to_messages(&self) -> (feed: MessageFeed)
        ensures
            feed.seen.seen() == Seq::<Seq<char>>::empty(),
            feed.seen.capacity() == DEDUP_CAPACITY,
    {
        MessageFeed { seen: BoundedDedup::new(DEDUP_CAPACITY) }
    }

    /// An ephemeral ping to an agent.
    pub fn send_ping(&self, agent_pubkey: &str, nonce: &str) -> (draft: EventDraft)
        ensures
            is_signal(draft@, KIND_PING, "elisym_ping"@, agent_pubkey@, nonce@),
    {
        make_signal(KIND_PING, "elisym_ping", agent_pubkey, nonce)
    }

    /// An ephemeral pong response.
    pub fn send_pong(&self, recipient_pubkey: &str, nonce: &str) -> (draft: EventDraft)
        ensures
            is_signal(draft@, KIND_PONG, "elisym_pong"@, recipient_pubkey@, nonce@),
    {
        make_signal(KIND_PONG, "elisym_pong", recipient_pubkey, nonce)
    }

    /// What waiting for a pong asks the relays for.
    /// Ephemeral events are never stored, so no time is given.
    pub fn pongs_query(&self) -> (query: RelayFilter)
        ensures
            query@ == addressed_filter(KIND_PONG, self.public_key@, None),
    {
        self.query(KIND_PONG, None)
    }

    /// Ping an agent and wait for pong.
    ///
    /// The nonce is made of the nanoseconds since the Unix epoch and a counter, both in
    /// hexadecimal.
    pub fn ping_agent(&self, agent_pubkey: &str, nanos: u128, counter: u64) -> (session: PingSession)
        ensures
            session.public_key@ == self.public_key@,
            session.target@ == agent_pubkey@,
            session.nonce@ == hexadecimal(nanos as nat) + hexadecimal(counter as nat),
    {
        PingSession {
            public_key: self.public_key.clone(),
            target: agent_pubkey.to_owned(),
            nonce: hexadecimal_text(nanos).concat(hexadecimal_text(counter as u128).as_str()),
        }
    }

    /// What a subscription to pings asks the relays for.
    /// Ephemeral events are never stored, so no time is given.
    pub fn pings_query(&self) -> (query: RelayFilter)
        ensures
            query@ == addressed_filter(KIND_PING, self.public_key@, None),
    {
        self.query(KIND_PING, None)
    }

    /// A subscription to incoming ephemeral pings addressed to this agent.
    pub fn subscribe_to_pings(&self) -> (feed: PingFeed)
        ensures
            feed.public_key@ == self.public_key@,
            feed.seen.seen() == Seq::<Seq<char>>::empty(),
            feed.seen.capacity() == DEDUP_CAPACITY,
    {
        PingFeed { public_key: self.public_key.clone(), seen: BoundedDedup::new(DEDUP_CAPACITY) }
    }
}

/// A subscription to incoming private messages.
#[derive(Debug)]
pub struct MessageFeed {
    pub seen: BoundedDedup,
}

impl MessageFeed {
    /// Takes an event and says whether it is a gift wrap to be unwrapped and delivered: one
    /// that was not seen before.
    pub fn on_event(&mut self, event: &Event) -> (unwrap: bool)
        ensures
            unwrap == (!old(self).seen.seen().contains(event@.id) && event@.kind == KIND_GIFT_WRAP),
            final(self).seen.seen() == remember(
                old(self).seen.seen(),
                event@.id,
                old(self).seen.capacity(),
            ),
            final(self).seen.capacity() == old(self).seen.capacity(),
    {
        self.seen.insert(event.id.as_str()) && event.kind == KIND_GIFT_WRAP
    }
}

/// A subscription to incoming pings.
#[derive(Debug)]
pub struct PingFeed {
    /// The agent's own public key in hexadecimal.
    pub public_key: String,
    pub seen: BoundedDedup,
}

impl PingFeed {
    /// Takes an event and gives the sender and nonce of a ping to this agent that was not
    /// seen before. Events of other kinds are not remembered.
    pub fn on_event(&mut self, event: &Event) -> (ping: Option<(String, String)>)
        ensures
            match ping {
                Some((sender, nonce)) => {
                    &&& !old(self).seen.seen().contains(event@.id)
                    &&& ping_in(event@, old(self).public_key@) == Some((sender@, nonce@))
                },
                None => old(self).seen.seen().contains(event@.id) || ping_in(
                    event@,
                    old(self).public_key@,
                ) is None,
            },
            final(self).public_key == old(self).public_key,
            final(self).seen.seen() == (if event@.kind == KIND_PING {
                remember(old(self).seen.seen(), event@.id, old(self).seen.capacity())
            } else {
                old(self).seen.seen()
            }),
            final(self).seen.capacity() == old(self).seen.capacity(),
    {
        if event.kind != KIND_PING {
            return None;
        }
        if !self.seen.insert(event.id.as_str()) {
            return None;
        }
        if !addressed_to(event, self.public_key.as_str()) {
            return None;
        }
        if !has_text_under(event.content.as_str(), "type", "elisym_ping") {
            return None;
        }
        match json_text_under(event.content.as_str(), "nonce") {
            Some(nonce) => Some((event.pubkey.clone(), nonce)),
            None => None,
        }
    }
}

/// What a ping waits for.
#[derive(Debug)]
pub enum PingEvent {
    /// An event arrived.
    Received(Event),
    /// Some events were skipped: the pong could be among them.
    Lagged,
    /// No more events will arrive.
    Closed,
    /// The time is up.
    TimedOut,
}

/// A ping whose pong is waited for.
#[derive(Debug)]
pub struct PingSession {
    /// The agent's own public key in hexadecimal.
    pub public_key: String,
    /// The public key of the agent that was pinged.
    pub target: String,
    pub nonce: String,
}

impl PingSession {
    /// Whether the agent is online, where an event settles it.
    pub open spec fn verdict(self, event: PingEvent) -> Option<bool> {
        match event {
            PingEvent::Received(event) => if is_pong(
                event@,
                self.public_key@,
                self.target@,
                self.nonce@,
            ) {
                Some(true)
            } else {
                None
            },
            PingEvent::Lagged => None,
            PingEvent::Closed => Some(false),
            PingEvent::TimedOut => Some(false),
        }
    }

    /// Whether a row of events shows the agent online: the first event that settles it says
    /// so.
    pub open spec fn is_online(self, events: Seq<PingEvent>) -> bool
        decreases events.len(),
    {
        if events.len() == 0 {
            false
        } else {
            match self.verdict(events[0]) {
                Some(online) => online,
                None => self.is_online(events.drop_first()),
            }
        }
    }

    /// Takes an event and says whether the agent is online; `None` means to wait on.
    pub fn on_event(&self, event: &PingEvent) -> (online: Option<bool>)
        ensures
            online == self.verdict(*event),
    {
        match event {
            PingEvent::Received(event) => {
                if event.kind == KIND_PONG && addressed_to(event, self.public_key.as_str())
                    && same_text(event.pubkey.as_str(), self.target.as_str()) && has_text_under(
                    event.content.as_str(),
                    "type",
                    "elisym_pong",
                ) && has_text_under(event.content.as_str(), "nonce", self.nonce.as_str()) {
                    Some(true)
                } else {
                    None
                }
            },
            PingEvent::Lagged => None,
            PingEvent::Closed => Some(false),
            PingEvent::TimedOut => Some(false),
        }
    }
}

/// A ping that was sent to an agent is among the events that it asks the relays for, and is
/// delivered to it with its nonce.
pub proof fn sent_ping_is_delivered(
    draft: EventDraftView,
    event: EventView,
    sender: Seq<char>,
    recipient: Seq<char>,
    nonce: Seq<char>,
)
    requires
        is_signal(draft, KIND_PING, "elisym_ping"@, recipient, nonce),
        carries(event, draft, sender),
    ensures
        ping_in(event, recipient) == Some((sender, nonce)),
        addressed_filter(KIND_PING, recipient, None).asks_for(event),
{
    lemma_addressed(event, recipient);
}

/// The pong of an agent that answers a ping with its nonce is among the events that the sender
/// of the ping asks the relays for, and settles that ping as online.
pub proof fn pong_shows_the_agent_online(
    session: PingSession,
    draft: EventDraftView,
    event: Event,
)
    requires
        is_signal(draft, KIND_PONG, "elisym_pong"@, session.public_key@, session.nonce@),
        carries(event@, draft, session.target@),
    ensures
        session.verdict(PingEvent::Received(event)) == Some(true),
        addressed_filter(KIND_PONG, session.public_key@, None).asks_for(event@),
{
    lemma_addressed(event@, session.public_key@);
}

/// An event whose only tag is a `p` tag with the given key is addressed to it.
proof fn lemma_addressed(event: EventView, public_key: Seq<char>)
    requires
        event.tags == seq![tag_of("p"@, public_key)],
    ensures
        is_addressed_to(event, public_key),
{
    let values = tag_values(event.tags, "p"@);
    assert(event.tags.drop_last() =~= Seq::empty());
    reveal_with_fuel(tag_values, 2);
    assert(values =~= seq![public_key]);
    assert(values[0] == public_key);
}

/// Whether the event at a position is the pong, and neither the end of the time nor of the
/// events comes before it.
pub open spec fn pong_in_time(session: PingSession, events: Seq<PingEvent>, at: int) -> bool {
    &&& 0 <= at < events.len()
    &&& session.verdict(events[at]) == Some(true)
    &&& forall|j: int|
        0 <= j < at ==> !(#[trigger] events[j] is Closed) && !(events[j] is TimedOut)
}

/// An agent counts as online exactly where its pong comes before the time is up and before
/// the events end.
pub proof fn online_means_pong_in_time(session: PingSession, events: Seq<PingEvent>)
    ensures
        session.is_online(events) <==> exists|at: int| #[trigger] pong_in_time(session, events, at),
    decreases events.len(),
{
    if events.len() > 0 {
        let rest = events.drop_first();
        online_means_pong_in_time(session, rest);
        assert forall|at: int| #[trigger] pong_in_time(session, rest, at) && session.verdict(
            events[0],
        ) is None implies pong_in_time(session, events, at + 1) by {
            assert forall|j: int| 0 <= j < at + 1 implies !(#[trigger] events[j] is Closed) && !(
            events[j] is TimedOut) by {
                if j > 0 {
                    assert(rest[j - 1] == events[j]);
                }
            }
        }
        assert forall|at: int| #[trigger] pong_in_time(session, events, at) && at > 0 implies
            pong_in_time(session, rest, at - 1) by {
            assert(rest[at - 1] == events[at]);
            assert forall|j: int| 0 <= j < at - 1 implies !(#[trigger] rest[j] is Closed) && !(
            rest[j] is TimedOut) by {
                assert(rest[j] == events[j + 1]);
            }
        }
        if session.verdict(events[0]) == Some(true) {
            assert(pong_in_time(session, events, 0));
        }
        if session.verdict(events[0]) is None && session.is_online(rest) {
            let at = choose|at: int| #[trigger] pong_in_time(session, rest, at);
            assert(pong_in_time(session, events, at + 1));
        }
        if exists|at: int| #[trigger] pong_in_time(session, events, at) {
            let at = choose|at: int| #[trigger] pong_in_time(session, events, at);
            if at > 0 {
                assert(!(events[0] is Closed) && !(events[0] is TimedOut));
                assert(pong_in_time(session, rest, at - 1));
            }
        }
    }
}

/// The ids of the events whose ping a feed delivers, in order.
pub open spec fn delivered_pings(
    seen: Seq<Seq<char>>,
    events: Seq<EventView>,
    public_key: Seq<char>,
    capacity: nat,
) -> Seq<Seq<char>>
    decreases events.len(),
{
    if events.len() == 0 {
        Seq::empty()
    } else {
        let event = events[0];
        let next = if event.kind == KIND_PING {
            remember(seen, event.id, capacity)
        } else {
            seen
        };
        let later = delivered_pings(next, events.drop_first(), public_key, capacity);
        if !seen.contains(event.id) && ping_in(event, public_key) is Some {
            seq![event.id] + later
        } else {
            later
        }
    }
}

/// Whether the event at a position is the first with its id, and that id was not seen before.
pub open spec fn is_new_at(seen: Seq<Seq<char>>, events: Seq<EventView>, at: int) -> bool {
    &&& 0 <= at < events.len()
    &&& !seen.contains(events[at].id)
    &&& forall|j: int| 0 <= j < at ==> (#[trigger] events[j]).id != events[at].id
}

/// An event that is new stays new once another was remembered.
proof fn lemma_still_new(
    seen: Seq<Seq<char>>,
    next: Seq<Seq<char>>,
    events: Seq<EventView>,
    at: int,
    capacity: nat,
)
    requires
        at > 0,
        is_new_at(seen, events, at),
        next == seen || next == remember(seen, events[0].id, capacity),
    ensures
        is_new_at(next, events.drop_first(), at - 1),
{
    let rest = events.drop_first();
    assert(rest[at - 1] == events[at]);
    assert forall|j: int| 0 <= j < at - 1 implies (#[trigger] rest[j]).id != rest[at - 1].id by {
        assert(rest[j] == events[j + 1]);
    }
    if next.contains(events[at].id) {
        let i = choose|i: int| 0 <= i < next.len() && next[i] == events[at].id;
        assert(events[0].id != events[at].id);
        if next != seen {
            if seen.len() < capacity {
                assert(next[i] == seen[i]);
            } else {
                assert(next[i] == seen[i + 1]);
            }
        }
    }
}

/// A new ping is delivered.
proof fn lemma_new_ping_is_delivered(
    seen: Seq<Seq<char>>,
    events: Seq<EventView>,
    public_key: Seq<char>,
    capacity: nat,
    at: int,
)
    requires
        is_new_at(seen, events, at),
        ping_in(events[at], public_key) is Some,
    ensures
        delivered_pings(seen, events, public_key, capacity).contains(events[at].id),
    decreases events.len(),
{
    let event = events[0];
    let next = if event.kind == KIND_PING {
        remember(seen, event.id, capacity)
    } else {
        seen
    };
    let later = delivered_pings(next, events.drop_first(), public_key, capacity);
    let all = delivered_pings(seen, events, public_key, capacity);
    if at == 0 {
        assert(all[0] == event.id);
    } else {
        lemma_still_new(seen, next, events, at, capacity);
        assert(events.drop_first()[at - 1] == events[at]);
        lemma_new_ping_is_delivered(next, events.drop_first(), public_key, capacity, at - 1);
        let i = choose|i: int| 0 <= i < later.len() && later[i] == events[at].id;
        assert(all[i + all.len() - later.len()] == events[at].id);
    }
}

/// A new gift wrap is handed on.
proof fn lemma_new_message_is_delivered(
    seen: Seq<Seq<char>>,
    events: Seq<EventView>,
    capacity: nat,
    at: int,
)
    requires
        is_new_at(seen, events, at),
        events[at].kind == KIND_GIFT_WRAP,
    ensures
        delivered_messages(seen, events, capacity).contains(events[at].id),
    decreases events.len(),
{
    let event = events[0];
    let next = remember(seen, event.id, capacity);
    let later = delivered_messages(next, events.drop_first(), capacity);
    let all = delivered_messages(seen, events, capacity);
    if at == 0 {
        assert(all[0] == event.id);
    } else {
        lemma_still_new(seen, next, events, at, capacity);
        assert(events.drop_first()[at - 1] == events[at]);
        lemma_new_message_is_delivered(next, events.drop_first(), capacity, at - 1);
        let i = choose|i: int| 0 <= i < later.len() && later[i] == events[at].id;
        assert(all[i + all.len() - later.len()] == events[at].id);
    }
}

/// An id in front of distinct others, none of which was seen before or is that id, leaves
/// them distinct and unseen.
proof fn lemma_delivered_in_front(
    seen: Seq<Seq<char>>,
    next: Seq<Seq<char>>,
    id: Seq<char>,
    later: Seq<Seq<char>>,
)
    requires
        next == seen.push(id),
        !seen.contains(id),
        later.no_duplicates(),
        forall|other: Seq<char>| #[trigger] later.contains(other) ==> !next.contains(other),
    ensures
        (seq![id] + later).no_duplicates(),
        forall|other: Seq<char>| #[trigger]
            (seq![id] + later).contains(other) ==> !seen.contains(other),
{
    let all = seq![id] + later;
    assert(next[next.len() - 1] == id);
    assert forall|i: int, j: int|
        0 <= i < all.len() && 0 <= j < all.len() && i != j implies all[i] != all[j] by {
        if i > 0 {
            assert(all[i] == later[i - 1]);
            assert(later.contains(later[i - 1]));
        }
        if j > 0 {
            assert(all[j] == later[j - 1]);
            assert(later.contains(later[j - 1]));
        }
    }
    assert forall|other: Seq<char>| #[trigger] all.contains(other) implies !seen.contains(
        other,
    ) by {
        let i = choose|i: int| 0 <= i < all.len() && all[i] == other;
        if i > 0 {
            assert(later[i - 1] == other);
            assert(later.contains(other));
            if seen.contains(other) {
                let k = choose|k: int| 0 <= k < seen.len() && seen[k] == other;
                assert(next[k] == other);
            }
        }
    }
}

/// What was seen stays seen where nothing is forgotten.
proof fn lemma_still_seen(seen: Seq<Seq<char>>, id: Seq<char>, other: Seq<char>)
    requires
        seen.contains(other),
    ensures
        seen.push(id).contains(other),
{
    let i = choose|i: int| 0 <= i < seen.len() && seen[i] == other;
    assert(seen.push(id)[i] == other);
}

/// Among events with no more distinct ids than a feed has room for, every new ping is
/// delivered, none twice, and none that was seen before.
pub proof fn ping_is_delivered_once(
    seen: Seq<Seq<char>>,
    events: Seq<EventView>,
    public_key: Seq<char>,
    ids: Set<Seq<char>>,
    capacity: nat,
)
    requires
        seen.no_duplicates(),
        lie_in(seen, ids),
        forall|i: int| 0 <= i < events.len() ==> ids.contains((#[trigger] events[i]).id),
        ids.finite(),
        ids.len() <= capacity,
    ensures
        delivered_pings(seen, events, public_key, capacity).no_duplicates(),
        forall|id: Seq<char>| #[trigger]
            delivered_pings(seen, events, public_key, capacity).contains(id) ==> !seen.contains(id),
        forall|at: int| #[trigger]
            is_new_at(seen, events, at) && ping_in(events[at], public_key) is Some
                ==> delivered_pings(seen, events, public_key, capacity).contains(events[at].id),
    decreases events.len(),
{
    assert forall|at: int| #[trigger]
        is_new_at(seen, events, at) && ping_in(events[at], public_key) is Some implies
        delivered_pings(seen, events, public_key, capacity).contains(events[at].id) by {
        lemma_new_ping_is_delivered(seen, events, public_key, capacity, at);
    }
    if events.len() > 0 {
        let event = events[0];
        let rest = events.drop_first();
        let next = if event.kind == KIND_PING {
            remember(seen, event.id, capacity)
        } else {
            seen
        };
        lemma_room_for_all(seen, event.id, ids, capacity);
        assert forall|i: int| 0 <= i < rest.len() implies ids.contains(
            (#[trigger] rest[i]).id,
        ) by {
            assert(rest[i] == events[i + 1]);
        }
        ping_is_delivered_once(next, rest, public_key, ids, capacity);
        let later = delivered_pings(next, rest, public_key, capacity);
        if !seen.contains(event.id) && ping_in(event, public_key) is Some {
            lemma_delivered_in_front(seen, next, event.id, later);
        } else {
            assert forall|id: Seq<char>| #[trigger] later.contains(id) implies !seen.contains(
                id,
            ) by {
                if seen.contains(id) && next != seen {
                    lemma_still_seen(seen, event.id, id);
                }
            }
        }
    }
}

/// The ids of the gift wraps that a feed hands on to be unwrapped, in order.
pub open spec fn delivered_messages(
    seen: Seq<Seq<char>>,
    events: Seq<EventView>,
    capacity: nat,
) -> Seq<Seq<char>>
    decreases events.len(),
{
    if events.len() == 0 {
        Seq::empty()
    } else {
        let event = events[0];
        let later = delivered_messages(
            remember(seen, event.id, capacity),
            events.drop_first(),
            capacity,
        );
        if !seen.contains(event.id) && event.kind == KIND_GIFT_WRAP {
            seq![event.id] + later
        } else {
            later
        }
    }
}

/// Among events with no more distinct ids than a feed has room for, every new gift wrap is
/// handed on, none twice, and none that was seen before.
pub proof fn message_is_delivered_once(
    seen: Seq<Seq<char>>,
    events: Seq<EventView>,
    ids: Set<Seq<char>>,
    capacity: nat,
)
    requires
        seen.no_duplicates(),
        lie_in(seen, ids),
        forall|i: int| 0 <= i < events.len() ==> ids.contains((#[trigger] events[i]).id),
        ids.finite(),
        ids.len() <= capacity,
    ensures
        delivered_messages(seen, events, capacity).no_duplicates(),
        forall|id: Seq<char>| #[trigger]
            delivered_messages(seen, events, capacity).contains(id) ==> !seen.contains(id),
        forall|at: int| #[trigger]
            is_new_at(seen, events, at) && events[at].kind == KIND_GIFT_WRAP
                ==> delivered_messages(seen, events, capacity).contains(events[at].id),
    decreases events.len(),
{
    assert forall|at: int| #[trigger]
        is_new_at(seen, events, at) && events[at].kind == KIND_GIFT_WRAP implies
        delivered_messages(seen, events, capacity).contains(events[at].id) by {
        lemma_new_message_is_delivered(seen, events, capacity, at);
    }
    if events.len() > 0 {
        let event = events[0];
        let rest = events.drop_first();
        let next = remember(seen, event.id, capacity);
        lemma_room_for_all(seen, event.id, ids, capacity);
        assert forall|i: int| 0 <= i < rest.len() implies ids.contains(
            (#[trigger] rest[i]).id,
        ) by {
            assert(rest[i] == events[i + 1]);
        }
        message_is_delivered_once(next, rest, ids, capacity);
        let later = delivered_messages(next, rest, capacity);
        if !seen.contains(event.id) && event.kind == KIND_GIFT_WRAP {
            lemma_delivered_in_front(seen, next, event.id, later);
        } else {
            assert forall|id: Seq<char>| #[trigger] later.contains(id) implies !seen.contains(
                id,
            ) by {
                if seen.contains(id) && next != seen {
                    lemma_still_seen(seen, event.id, id);
                }
            }
        }
    }
}

/// An event is addressed to a key exactly where one of its `p` tags holds the key.
pub proof fn addressed_by_a_p_tag(event: EventView, public_key: Seq<char>)
    ensures
        is_addressed_to(event, public_key) <==> exists|i: int|
            0 <= i < event.tags.len() && (#[trigger] event.tags[i]).len() >= 2 && event.tags[i][0]
                == "p"@ && event.tags[i][1] == public_key,
{
    tag_value_is_held_by_a_tag(event.tags, "p"@, public_key);
}

/// A ping is an event of kind 20200 with a `p` tag for the key, whose JSON says so and holds a
/// nonce: its author and that nonce are what is delivered, and no other event is one.
pub proof fn ping_is_what_its_event_says(
    event: EventView,
    public_key: Seq<char>,
    sender: Seq<char>,
    nonce: Seq<char>,
)
    ensures
        ping_in(event, public_key) == Some((sender, nonce)) <==> {
            &&& event.kind == 20200
            &&& exists|i: int|
                0 <= i < event.tags.len() && (#[trigger] event.tags[i]).len() >= 2
                    && event.tags[i][0] == "p"@ && event.tags[i][1] == public_key
            &&& text_under(event.content, "type"@) == Some("elisym_ping"@)
            &&& text_under(event.content, "nonce"@) == Some(nonce)
            &&& event.pubkey == sender
        },
{
    addressed_by_a_p_tag(event, public_key);
}

/// An agent is shown online by an event of kind 20201 of its own, with a `p` tag for the key
/// that pinged it, whose JSON says that it is a pong and holds the nonce, and by nothing else;
/// the end of the events or of the time shows it offline, and nothing else settles it.
pub proof fn pong_is_what_its_event_says(session: PingSession, event: PingEvent)
    ensures
        session.verdict(event) == Some(true) <==> (event matches PingEvent::Received(received) && {
            &&& received@.kind == 20201
            &&& exists|i: int|
                0 <= i < received@.tags.len() && (#[trigger] received@.tags[i]).len() >= 2
                    && received@.tags[i][0] == "p"@ && received@.tags[i][1] == session.public_key@
            &&& received@.pubkey == session.target@
            &&& text_under(received@.content, "type"@) == Some("elisym_pong"@)
            &&& text_under(received@.content, "nonce"@) == Some(session.nonce@)
        }),
        session.verdict(event) == Some(false) <==> event is Closed || event is TimedOut,
{
    if let PingEvent::Received(received) = event {
        addressed_by_a_p_tag(received@, session.public_key@);
    }
}

/// A ping or pong has one tag, which names the recipient, and a JSON object of two members,
/// the nonce and the type.
pub proof fn signal_says_nonce_and_type(
    draft: EventDraftView,
    kind: u16,
    signal: Seq<char>,
    recipient: Seq<char>,
    nonce: Seq<char>,
)
    requires
        is_signal(draft, kind, signal, recipient, nonce),
    ensures
        draft.kind == kind,
        draft.tags.len() == 1 && draft.tags[0].len() == 2,
        draft.tags[0][0] == "p"@ && draft.tags[0][1] == recipient,
        draft.content == json_object_text(
            seq![
                ("nonce"@, Some(JsonScalarView::Text(nonce))),
                ("type"@, Some(JsonScalarView::Text(signal))),
            ],
        ),
        text_under(draft.content, "type"@) == Some(signal),
        text_under(draft.content, "nonce"@) == Some(nonce),
{
}

/// What is asked for by address is of the kind, since the time, from anybody, and with the key
/// in a `p` tag.
pub proof fn address_is_asked_for_by_its_tag(kind: u16, public_key: Seq<char>, since: Option<u64>)
    ensures
        addressed_filter(kind, public_key, since).kind == kind,
        addressed_filter(kind, public_key, since).since == since,
        addressed_filter(kind, public_key, since).author is None,
        addressed_filter(kind, public_key, since).tags.len() == 1,
        addressed_filter(kind, public_key, since).tags[0] == seq!["p"@, public_key],
{
}

} // verus!
