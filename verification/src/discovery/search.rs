//! The local half of an agent search: which of the fetched capability cards count, which
//! agents they make up, and in what order the agents are returned.
use vstd::prelude::*;

use crate::discovery::matching::{
    capability_in_tags, capability_in_text, matches_capability, matches_capability_in_text,
    matches_query, query_on_card,
};
use crate::event::{d_tag, d_tag_of, tag_values, values_of, Event, EventView};
use crate::identity::{CapabilityCard, CapabilityCardView};
use crate::number::{parse_u16, parsed_u16};
use crate::ranking::{below, positions_of, rank, ranked, select};
use crate::text::texts;

verus! {

/// A discovered agent with its capability cards and event metadata.
#[derive(Debug, Clone)]
pub struct DiscoveredAgent {
    pub pubkey: String,
    pub cards: Vec<CapabilityCard>,
    pub event_id: String,
    pub supported_kinds: Vec<u16>,
    /// Number of requested capabilities that matched (for relevance sorting).
    pub match_count: usize,
}

/// The contents of a [`DiscoveredAgent`].
pub struct DiscoveredAgentView {
    pub pubkey: Seq<char>,
    pub cards: Seq<CapabilityCardView>,
    pub event_id: Seq<char>,
    pub supported_kinds: Seq<u16>,
    pub match_count: nat,
}

impl View for DiscoveredAgent {
    type V = DiscoveredAgentView;

    open spec fn view(&self) -> DiscoveredAgentView {
        DiscoveredAgentView {
            pubkey: self.pubkey@,
            cards: self.cards@.map_values(|card: CapabilityCard| card@),
            event_id: self.event_id@,
            supported_kinds: self.supported_kinds@,
            match_count: self.match_count as nat,
        }
    }
}

/// Filter for searching agents.
#[derive(Debug, Clone)]
pub struct AgentFilter {
    pub capabilities: Vec<String>,
    pub job_kind: Option<u16>,
    pub since: Option<u64>,
    /// Maximum number of agents to return. `None` means no limit.
    pub limit: Option<usize>,
    /// Free-text query to match against a card (case-insensitive substring).
    pub query: Option<String>,
    /// Filter by a specific agent's public key. When set, the relay query
    /// is scoped to events authored by this key.
    pub pubkey: Option<String>,
}

/// The contents of an [`AgentFilter`].
pub struct AgentFilterView {
    pub capabilities: Seq<Seq<char>>,
    pub job_kind: Option<u16>,
    pub since: Option<u64>,
    pub limit: Option<usize>,
    pub query: Option<Seq<char>>,
    pub pubkey: Option<Seq<char>>,
}

/// The contents of an optional string.
pub open spec fn optional_text(text: Option<String>) -> Option<Seq<char>> {
    match text {
        Some(text) => Some(text@),
        None => None,
    }
}

impl View for AgentFilter {
    type V = AgentFilterView;

    open spec fn view(&self) -> AgentFilterView {
        AgentFilterView {
            capabilities: texts(self.capabilities@),
            job_kind: self.job_kind,
            since: self.since,
            limit: self.limit,
            query: optional_text(self.query),
            pubkey: optional_text(self.pubkey),
        }
    }
}

impl Default for AgentFilter {
    fn default() -> (filter: Self)
        ensures
            filter@ == (AgentFilterView {
                capabilities: Seq::empty(),
                job_kind: None,
                since: None,
                limit: None,
                query: None,
                pubkey: None,
            }),
    {
        let filter = AgentFilter {
            capabilities: Vec::new(),
            job_kind: None,
            since: None,
            limit: None,
            query: None,
            pubkey: None,
        };
        assert(filter@.capabilities =~= Seq::empty());
        filter
    }
}

/// An event of kind [`crate::event::KIND_APP_HANDLER`] with the card read from its content;
/// `None` where the content is not a card.
#[derive(Debug)]
pub struct CardEvent {
    pub event: Event,
    pub card: Option<CapabilityCard>,
}

/// The contents of a [`CardEvent`].
pub struct CardEventView {
    pub event: EventView,
    pub card: Option<CapabilityCardView>,
}

impl View for CardEvent {
    type V = CardEventView;

    open spec fn view(&self) -> CardEventView {
        CardEventView {
            event: self.event@,
            card: match self.card {
                Some(card) => Some(card@),
                None => None,
            },
        }
    }
}

/// The contents of a list of card events.
pub open spec fn card_events(events: Seq<CardEvent>) -> Seq<CardEventView> {
    events.map_values(|event: CardEvent| event@)
}

/// The contents of a list of agents.
pub open spec fn agent_views(agents: Seq<DiscoveredAgent>) -> Seq<DiscoveredAgentView> {
    agents.map_values(|agent: DiscoveredAgent| agent@)
}

/// Whether event `j` replaces event `i`: it is newer, or as old and arrived earlier.
pub open spec fn outranks(events: Seq<CardEventView>, j: int, i: int) -> bool {
    ||| events[j].event.created_at > events[i].event.created_at
    ||| events[j].event.created_at == events[i].event.created_at && j < i
}

/// Whether two events are versions of one replaceable event: same author, same d-tag.
pub open spec fn same_slot(events: Seq<CardEventView>, j: int, i: int) -> bool {
    &&& events[j].event.pubkey == events[i].event.pubkey
    &&& d_tag_of(events[j].event.tags) == d_tag_of(events[i].event.tags)
}

/// Whether event `i` is the newest version of its replaceable event.
pub open spec fn is_current(events: Seq<CardEventView>, i: int) -> bool {
    &&& 0 <= i < events.len()
    &&& forall|j: int|
        0 <= j < events.len() && #[trigger] same_slot(events, j, i) ==> !outranks(events, j, i)
}

/// Whether event `i` is current and holds a card.
pub open spec fn is_carded(events: Seq<CardEventView>, i: int) -> bool {
    is_current(events, i) && events[i].card is Some
}

/// Whether two events carry cards of one name by one author.
pub open spec fn same_card_name(events: Seq<CardEventView>, j: int, i: int) -> bool {
    &&& events[j].event.pubkey == events[i].event.pubkey
    &&& events[j].card->0.name == events[i].card->0.name
}

/// Whether the card of event `i` is listed: it is the newest of its name by its author.
pub open spec fn is_listed(events: Seq<CardEventView>, i: int) -> bool {
    &&& is_carded(events, i)
    &&& forall|j: int|
        #[trigger] is_carded(events, j) && same_card_name(events, j, i) ==> !outranks(events, j, i)
}

/// Whether event `i` is the first to arrive of those that hold a card of its author.
pub open spec fn is_leader(events: Seq<CardEventView>, i: int) -> bool {
    &&& is_carded(events, i)
    &&& forall|j: int|
        0 <= j < i && #[trigger] is_carded(events, j) ==> events[j].event.pubkey
            != events[i].event.pubkey
}

/// Picks the listed cards of one author.
pub open spec fn listing_rule(events: Seq<CardEventView>, pubkey: Seq<char>) -> spec_fn(
    int,
) -> bool {
    |i: int| is_listed(events, i) && events[i].event.pubkey == pubkey
}

/// The events whose cards are listed for one author, in order of arrival.
pub open spec fn listing(events: Seq<CardEventView>, pubkey: Seq<char>) -> Seq<int> {
    select(events.len(), listing_rule(events, pubkey))
}

/// Whether a requested capability matches a card: via its event's `t` tags, its name or
/// its description.
pub open spec fn capability_on_card(capability: Seq<char>, entry: CardEventView) -> bool {
    ||| capability_in_tags(capability, tag_values(entry.event.tags, "t"@))
    ||| capability_in_text(capability, entry.card->0.name)
    ||| capability_in_text(capability, entry.card->0.description)
}

/// How many of the requested capabilities match a card.
pub open spec fn matches_on_card(capabilities: Seq<Seq<char>>, entry: CardEventView) -> nat
    decreases capabilities.len(),
{
    if capabilities.len() == 0 {
        0
    } else {
        let before = matches_on_card(capabilities.drop_last(), entry);
        if capability_on_card(capabilities.last(), entry) {
            before + 1
        } else {
            before
        }
    }
}

/// The largest number of requested capabilities that one of the cards matches.
pub open spec fn best_match(
    events: Seq<CardEventView>,
    entries: Seq<int>,
    capabilities: Seq<Seq<char>>,
) -> nat
    decreases entries.len(),
{
    if entries.len() == 0 {
        0
    } else {
        let before = best_match(events, entries.drop_last(), capabilities);
        let last = matches_on_card(capabilities, events[entries.last()]);
        if last > before {
            last
        } else {
            before
        }
    }
}

/// Whether one of the cards satisfies the free-text query, or there is none.
pub open spec fn query_on_entries(
    events: Seq<CardEventView>,
    entries: Seq<int>,
    query: Option<Seq<char>>,
) -> bool {
    match query {
        Some(query) => exists|i: int|
            0 <= i < entries.len() && query_on_card(query, events[#[trigger] entries[i]].card->0),
        None => true,
    }
}

/// Whether a requested capability matches one of the cards.
pub open spec fn capability_on_entries(
    events: Seq<CardEventView>,
    entries: Seq<int>,
    capability: Seq<char>,
) -> bool {
    exists|i: int|
        0 <= i < entries.len() && capability_on_card(capability, events[#[trigger] entries[i]])
}

/// Whether an agent is returned: its cards satisfy the free-text query, and it has all of
/// the requested capabilities.
pub open spec fn is_admitted(
    filter: AgentFilterView,
    events: Seq<CardEventView>,
    pubkey: Seq<char>,
) -> bool {
    let entries = listing(events, pubkey);
    &&& query_on_entries(events, entries, filter.query)
    &&& forall|i: int|
        0 <= i < filter.capabilities.len() ==> capability_on_entries(
            events,
            entries,
            #[trigger] filter.capabilities[i],
        )
}

/// The job kinds that a row of `k` values stands for; what is not a number is left out.
pub open spec fn parsed_kinds(values: Seq<Seq<char>>) -> Seq<u16>
    decreases values.len(),
{
    if values.len() == 0 {
        Seq::empty()
    } else {
        let before = parsed_kinds(values.drop_last());
        match parsed_u16(values.last()) {
            Some(kind) => before.push(kind),
            None => before,
        }
    }
}

/// The job kinds that an event supports.
pub open spec fn kinds_of(event: EventView) -> Seq<u16> {
    parsed_kinds(tag_values(event.tags, "k"@))
}

/// `known` followed by the kinds that it does not hold yet.
pub open spec fn with_new_kinds(known: Seq<u16>, kinds: Seq<u16>) -> Seq<u16>
    decreases kinds.len(),
{
    if kinds.len() == 0 {
        known
    } else {
        let before = with_new_kinds(known, kinds.drop_last());
        if before.contains(kinds.last()) {
            before
        } else {
            before.push(kinds.last())
        }
    }
}

/// The job kinds that the events support together, each once.
pub open spec fn merged_kinds(events: Seq<CardEventView>, entries: Seq<int>) -> Seq<u16>
    decreases entries.len(),
{
    if entries.len() == 0 {
        Seq::empty()
    } else {
        with_new_kinds(
            merged_kinds(events, entries.drop_last()),
            kinds_of(events[entries.last()].event),
        )
    }
}

/// When each event was created.
pub open spec fn ages(events: Seq<CardEventView>) -> Seq<u64> {
    events.map_values(|entry: CardEventView| entry.event.created_at)
}

/// How well each event's author matches the requested capabilities.
pub open spec fn scores(filter: AgentFilterView, events: Seq<CardEventView>) -> Seq<u64> {
    events.map_values(
        |entry: CardEventView|
            best_match(
                events,
                listing(events, entry.event.pubkey),
                filter.capabilities,
            ) as u64,
    )
}

/// The agent that an event's author makes up: its listed cards, newest first, the id of
/// the newest one's event, the kinds they support together, and the best card's matches.
pub open spec fn agent_of(
    filter: AgentFilterView,
    events: Seq<CardEventView>,
    i: int,
) -> DiscoveredAgentView {
    let pubkey = events[i].event.pubkey;
    let entries = listing(events, pubkey);
    let newest_first = ranked(entries, ages(events));
    DiscoveredAgentView {
        pubkey,
        cards: newest_first.map_values(|j: int| events[j].card->0),
        event_id: events[newest_first[0]].event.id,
        supported_kinds: merged_kinds(events, entries),
        match_count: best_match(events, entries, filter.capabilities),
    }
}

/// Picks the first event of each agent that is returned.
pub open spec fn admission_rule(
    filter: AgentFilterView,
    events: Seq<CardEventView>,
) -> spec_fn(int) -> bool {
    |i: int| is_leader(events, i) && is_admitted(filter, events, events[i].event.pubkey)
}

/// At most `limit` of the positions, from the front.
pub open spec fn limited(order: Seq<int>, limit: Option<usize>) -> Seq<int> {
    match limit {
        Some(limit) if limit < order.len() => order.take(limit as int),
        _ => order,
    }
}

/// The first events of the agents that a search returns, best match first; equally good
/// ones stay in order of arrival.
pub open spec fn search_order(filter: AgentFilterView, events: Seq<CardEventView>) -> Seq<int> {
    limited(
        ranked(select(events.len(), admission_rule(filter, events)), scores(filter, events)),
        filter.limit,
    )
}

/// What a search returns.
pub open spec fn search_result(
    filter: AgentFilterView,
    events: Seq<CardEventView>,
) -> Seq<DiscoveredAgentView> {
    search_order(filter, events).map_values(|i: int| agent_of(filter, events, i))
}

/// Which events are current and hold a card.
fn mark_carded(events: &Vec<CardEvent>) -> (carded: Vec<bool>)
    ensures
        carded@.len() == events@.len(),
        forall|i: int|
            0 <= i < events@.len() ==> #[trigger] carded@[i] == is_carded(
                card_events(events@),
                i,
            ),
{
    let ghost all = card_events(events@);
    let mut d_tags: Vec<String> = Vec::new();
    for i in 0..events.len()
        invariant
            all == card_events(events@),
            d_tags@.len() == i,
            forall|j: int| 0 <= j < i ==> #[trigger] d_tags@[j]@ == d_tag_of(all[j].event.tags),
    {
        assert(all[i as int] == events@[i as int]@);
        d_tags.push(d_tag(&events[i].event.tags));
    }
    let mut carded: Vec<bool> = Vec::new();
    for i in 0..events.len()
        invariant
            all == card_events(events@),
            d_tags@.len() == events@.len(),
            forall|j: int|
                0 <= j < events@.len() ==> #[trigger] d_tags@[j]@ == d_tag_of(all[j].event.tags),
            carded@.len() == i,
            forall|j: int| 0 <= j < i ==> #[trigger] carded@[j] == is_carded(all, j),
    {
        assert(all[i as int] == events@[i as int]@);
        let mut current = true;
        let mut j: usize = 0;
        while current && j < events.len()
            invariant
                all == card_events(events@),
                i < events@.len(),
                all[i as int] == events@[i as int]@,
                j <= events@.len(),
                d_tags@.len() == events@.len(),
                forall|k: int|
                    0 <= k < events@.len() ==> #[trigger] d_tags@[k]@ == d_tag_of(
                        all[k].event.tags,
                    ),
                current ==> forall|k: int|
                    0 <= k < j && #[trigger] same_slot(all, k, i as int) ==> !outranks(
                        all,
                        k,
                        i as int,
                    ),
                !current ==> !is_current(all, i as int),
            decreases events@.len() - j,
        {
            assert(all[j as int] == events@[j as int]@);
            let same = events[j].event.pubkey == events[i].event.pubkey && d_tags[j] == d_tags[i];
            assert(same == same_slot(all, j as int, i as int));
            let newer = events[j].event.created_at > events[i].event.created_at;
            let equal = events[j].event.created_at == events[i].event.created_at;
            if same && (newer || (equal && j < i)) {
                assert(outranks(all, j as int, i as int));
                current = false;
            }
            j += 1;
        }
        carded.push(current && events[i].card.is_some());
    }
    carded
}

/// Which events hold a listed card.
fn mark_listed(events: &Vec<CardEvent>, carded: &Vec<bool>) -> (listed: Vec<bool>)
    requires
        carded@.len() == events@.len(),
        forall|i: int|
            0 <= i < events@.len() ==> #[trigger] carded@[i] == is_carded(
                card_events(events@),
                i,
            ),
    ensures
        listed@.len() == events@.len(),
        forall|i: int|
            0 <= i < events@.len() ==> #[trigger] listed@[i] == is_listed(
                card_events(events@),
                i,
            ),
{
    let ghost all = card_events(events@);
    let mut listed: Vec<bool> = Vec::new();
    for i in 0..events.len()
        invariant
            all == card_events(events@),
            carded@.len() == events@.len(),
            forall|j: int|
                0 <= j < events@.len() ==> #[trigger] carded@[j] == is_carded(all, j),
            listed@.len() == i,
            forall|j: int| 0 <= j < i ==> #[trigger] listed@[j] == is_listed(all, j),
    {
        assert(all[i as int] == events@[i as int]@);
        let mut newest = carded[i];
        let mut j: usize = 0;
        while newest && j < events.len()
            invariant
                all == card_events(events@),
                i < events@.len(),
                all[i as int] == events@[i as int]@,
                j <= events@.len(),
                carded@.len() == events@.len(),
                forall|k: int|
                    0 <= k < events@.len() ==> #[trigger] carded@[k] == is_carded(all, k),
                newest ==> is_carded(all, i as int),
                newest ==> forall|k: int|
                    0 <= k < j && #[trigger] is_carded(all, k) && same_card_name(all, k, i as int)
                        ==> !outranks(all, k, i as int),
                !newest ==> !is_listed(all, i as int),
            decreases events@.len() - j,
        {
            assert(all[j as int] == events@[j as int]@);
            assert(carded@[j as int] == is_carded(all, j as int));
            if carded[j] {
                let newer = events[j].event.created_at > events[i].event.created_at;
                let equal = events[j].event.created_at == events[i].event.created_at;
                if newer || (equal && j < i) {
                    if let (Some(theirs), Some(ours)) = (&events[j].card, &events[i].card) {
                        if events[j].event.pubkey == events[i].event.pubkey && theirs.name
                            == ours.name {
                            assert(same_card_name(all, j as int, i as int));
                            newest = false;
                        }
                    }
                }
            }
            j += 1;
        }
        listed.push(newest);
    }
    listed
}

/// Whether event `i` is the first to arrive of those that hold a card of its author.
fn leads(events: &Vec<CardEvent>, carded: &Vec<bool>, i: usize) -> (yes: bool)
    requires
        i < events@.len(),
        carded@.len() == events@.len(),
        forall|j: int|
            0 <= j < events@.len() ==> #[trigger] carded@[j] == is_carded(
                card_events(events@),
                j,
            ),
    ensures
        yes == is_leader(card_events(events@), i as int),
{
    let ghost all = card_events(events@);
    assert(all[i as int] == events@[i as int]@);
    if !carded[i] {
        return false;
    }
    for j in 0..i
        invariant
            i < events@.len(),
            all == card_events(events@),
            all[i as int] == events@[i as int]@,
            carded@.len() == events@.len(),
            forall|k: int|
                0 <= k < events@.len() ==> #[trigger] carded@[k] == is_carded(all, k),
            forall|k: int|
                0 <= k < j && #[trigger] is_carded(all, k) ==> all[k].event.pubkey
                    != all[i as int].event.pubkey,
    {
        assert(all[j as int] == events@[j as int]@);
        assert(carded@[j as int] == is_carded(all, j as int));
        if carded[j] && events[j].event.pubkey == events[i].event.pubkey {
            return false;
        }
    }
    true
}

/// The events whose cards are listed for one author, in order of arrival.
fn list_entries(events: &Vec<CardEvent>, listed: &Vec<bool>, pubkey: &String) -> (entries: Vec<
    usize,
>)
    requires
        listed@.len() == events@.len(),
        forall|i: int|
            0 <= i < events@.len() ==> #[trigger] listed@[i] == is_listed(
                card_events(events@),
                i,
            ),
    ensures
        positions_of(entries@) == listing(card_events(events@), pubkey@),
{
    let ghost all = card_events(events@);
    let ghost keep = listing_rule(all, pubkey@);
    let mut entries: Vec<usize> = Vec::new();
    for i in 0..events.len()
        invariant
            all == card_events(events@),
            keep == listing_rule(all, pubkey@),
            listed@.len() == events@.len(),
            forall|j: int|
                0 <= j < events@.len() ==> #[trigger] listed@[j] == is_listed(all, j),
            positions_of(entries@) == select(i as nat, keep),
    {
        let ghost before = entries@;
        assert(all[i as int] == events@[i as int]@);
        assert(listed@[i as int] == is_listed(all, i as int));
        assert(select((i + 1) as nat, keep) == if keep(i as int) {
            select(i as nat, keep).push(i as int)
        } else {
            select(i as nat, keep)
        });
        if listed[i] && events[i].event.pubkey == *pubkey {
            entries.push(i);
            assert(positions_of(entries@) =~= positions_of(before).push(i as int));
        }
    }
    entries
}

/// Whether a requested capability matches a card via its tags, its name or its description.
pub fn matches_card(capability: &str, tags: &Vec<String>, card: &CapabilityCard) -> (yes: bool)
    ensures
        yes == (capability_in_tags(capability@, texts(tags@)) || capability_in_text(
            capability@,
            card@.name,
        ) || capability_in_text(capability@, card@.description)),
{
    matches_capability(capability, tags) || matches_capability_in_text(
        capability,
        card.name.as_str(),
    ) || matches_capability_in_text(capability, card.description.as_str())
}

/// Whether a requested capability matches the card of an event.
fn matches_entry(capability: &str, entry: &CardEvent) -> (yes: bool)
    requires
        entry.card is Some,
    ensures
        yes == capability_on_card(capability@, entry@),
{
    match &entry.card {
        Some(card) => {
            let tags = values_of(&entry.event.tags, "t");
            matches_card(capability, &tags, card)
        },
        None => false,
    }
}

/// How many of the requested capabilities match the card of an event.
fn count_matches(capabilities: &Vec<String>, entry: &CardEvent) -> (count: usize)
    requires
        entry.card is Some,
    ensures
        count == matches_on_card(texts(capabilities@), entry@),
        count <= capabilities@.len(),
{
    let ghost wanted = texts(capabilities@);
    let mut count: usize = 0;
    for i in 0..capabilities.len()
        invariant
            entry.card is Some,
            wanted == texts(capabilities@),
            count <= i,
            count == matches_on_card(wanted.take(i as int), entry@),
    {
        assert(wanted.take(i + 1).drop_last() =~= wanted.take(i as int));
        assert(wanted.take(i + 1).last() == capabilities@[i as int]@);
        if matches_entry(capabilities[i].as_str(), entry) {
            count += 1;
        }
    }
    assert(wanted.take(capabilities@.len() as int) =~= wanted);
    count
}

/// Whether the positions are events that hold cards.
pub open spec fn all_carded(events: Seq<CardEventView>, entries: Seq<int>) -> bool {
    forall|i: int|
        0 <= i < entries.len() ==> 0 <= #[trigger] entries[i] < events.len()
            && events[entries[i]].card is Some
}

/// The largest number of requested capabilities that one of the cards matches.
fn best_count(events: &Vec<CardEvent>, entries: &Vec<usize>, capabilities: &Vec<String>) -> (best:
    usize)
    requires
        all_carded(card_events(events@), positions_of(entries@)),
    ensures
        best == best_match(
            card_events(events@),
            positions_of(entries@),
            texts(capabilities@),
        ),
        best <= capabilities@.len(),
{
    let ghost all = card_events(events@);
    let ghost places = positions_of(entries@);
    let mut best: usize = 0;
    for i in 0..entries.len()
        invariant
            all == card_events(events@),
            places == positions_of(entries@),
            all_carded(all, places),
            best <= capabilities@.len(),
            best == best_match(all, places.take(i as int), texts(capabilities@)),
    {
        assert(places.take(i + 1).drop_last() =~= places.take(i as int));
        assert(places.take(i + 1).last() == places[i as int]);
        assert(places[i as int] == entries@[i as int]);
        let entry = &events[entries[i]];
        assert(all[places[i as int]] == entry@);
        let count = count_matches(capabilities, entry);
        if count > best {
            best = count;
        }
    }
    assert(places.take(entries@.len() as int) =~= places);
    best
}

/// Whether the cards satisfy the free-text query and have all of the requested capabilities.
fn admits(filter: &AgentFilter, events: &Vec<CardEvent>, entries: &Vec<usize>) -> (yes: bool)
    requires
        all_carded(card_events(events@), positions_of(entries@)),
    ensures
        yes == (query_on_entries(card_events(events@), positions_of(entries@), filter@.query)
            && forall|i: int|
            0 <= i < filter@.capabilities.len() ==> capability_on_entries(
                card_events(events@),
                positions_of(entries@),
                #[trigger] filter@.capabilities[i],
            )),
{
    let ghost all = card_events(events@);
    let ghost places = positions_of(entries@);
    if let Some(query) = &filter.query {
        let mut found = false;
        let mut i: usize = 0;
        while !found && i < entries.len()
            invariant
                all == card_events(events@),
                places == positions_of(entries@),
                all_carded(all, places),
                i <= entries@.len(),
                found ==> exists|j: int|
                    0 <= j < places.len() && query_on_card(
                        query@,
                        all[#[trigger] places[j]].card->0,
                    ),
                !found ==> forall|j: int|
                    0 <= j < i ==> !query_on_card(query@, all[#[trigger] places[j]].card->0),
            decreases entries@.len() - i,
        {
            assert(places[i as int] == entries@[i as int]);
            let entry = &events[entries[i]];
            assert(all[places[i as int]] == entry@);
            if let Some(card) = &entry.card {
                if matches_query(query.as_str(), card) {
                    found = true;
                }
            }
            i += 1;
        }
        if !found {
            return false;
        }
    }
    for i in 0..filter.capabilities.len()
        invariant
            all == card_events(events@),
            places == positions_of(entries@),
            all_carded(all, places),
            query_on_entries(all, places, filter@.query),
            forall|j: int|
                0 <= j < i ==> capability_on_entries(
                    all,
                    places,
                    #[trigger] filter@.capabilities[j],
                ),
    {
        let capability = filter.capabilities[i].as_str();
        assert(filter@.capabilities[i as int] == capability@);
        let mut found = false;
        let mut k: usize = 0;
        while !found && k < entries.len()
            invariant
                all == card_events(events@),
                places == positions_of(entries@),
                all_carded(all, places),
                k <= entries@.len(),
                found ==> capability_on_entries(all, places, capability@),
                !found ==> forall|j: int|
                    0 <= j < k ==> !capability_on_card(
                        capability@,
                        all[#[trigger] places[j]],
                    ),
            decreases entries@.len() - k,
        {
            assert(places[k as int] == entries@[k as int]);
            let entry = &events[entries[k]];
            assert(all[places[k as int]] == entry@);
            if matches_entry(capability, entry) {
                found = true;
            }
            k += 1;
        }
        if !found {
            return false;
        }
    }
    true
}

/// The job kinds that an event supports.
pub fn event_kinds(event: &Event) -> (kinds: Vec<u16>)
    ensures
        kinds@ == kinds_of(event@),
{
    let values = values_of(&event.tags, "k");
    let ghost all = texts(values@);
    let mut kinds: Vec<u16> = Vec::new();
    for i in 0..values.len()
        invariant
            all == texts(values@),
            kinds@ == parsed_kinds(all.take(i as int)),
    {
        assert(all.take(i + 1).drop_last() =~= all.take(i as int));
        assert(all.take(i + 1).last() == values@[i as int]@);
        if let Some(kind) = parse_u16(values[i].as_str()) {
            kinds.push(kind);
        }
    }
    assert(all.take(values@.len() as int) =~= all);
    kinds
}

/// Appends the kinds that are not known yet.
fn add_new_kinds(known: &mut Vec<u16>, kinds: &Vec<u16>)
    ensures
        final(known)@ == with_new_kinds(old(known)@, kinds@),
{
    let ghost start = known@;
    for i in 0..kinds.len()
        invariant
            known@ == with_new_kinds(start, kinds@.take(i as int)),
    {
        assert(kinds@.take(i + 1).drop_last() =~= kinds@.take(i as int));
        assert(kinds@.take(i + 1).last() == kinds@[i as int]);
        let mut present = false;
        let mut k: usize = 0;
        while !present && k < known.len()
            invariant
                i < kinds@.len(),
                k <= known@.len(),
                present ==> known@.contains(kinds@[i as int]),
                !present ==> forall|j: int| 0 <= j < k ==> known@[j] != kinds@[i as int],
            decreases known@.len() - k,
        {
            if known[k] == kinds[i] {
                present = true;
            }
            k += 1;
        }
        if !present {
            known.push(kinds[i]);
        }
    }
    assert(kinds@.take(kinds@.len() as int) =~= kinds@);
}

/// The job kinds that the events support together, each once.
fn merge_kinds(events: &Vec<CardEvent>, entries: &Vec<usize>) -> (kinds: Vec<u16>)
    requires
        all_carded(card_events(events@), positions_of(entries@)),
    ensures
        kinds@ == merged_kinds(card_events(events@), positions_of(entries@)),
{
    let ghost all = card_events(events@);
    let ghost places = positions_of(entries@);
    let mut kinds: Vec<u16> = Vec::new();
    for i in 0..entries.len()
        invariant
            all == card_events(events@),
            places == positions_of(entries@),
            all_carded(all, places),
            kinds@ == merged_kinds(all, places.take(i as int)),
    {
        assert(places.take(i + 1).drop_last() =~= places.take(i as int));
        assert(places.take(i + 1).last() == places[i as int]);
        assert(places[i as int] == entries@[i as int]);
        let entry = &events[entries[i]];
        assert(all[places[i as int]] == entry@);
        let supported = event_kinds(&entry.event);
        add_new_kinds(&mut kinds, &supported);
    }
    assert(places.take(entries@.len() as int) =~= places);
    kinds
}

/// Of the events that satisfy `keep`, one is outranked by none.
pub proof fn lemma_unoutranked(
    events: Seq<CardEventView>,
    keep: spec_fn(int) -> bool,
    n: int,
    i: int,
) -> (top: int)
    requires
        0 <= i < n <= events.len(),
        keep(i),
    ensures
        0 <= top < n,
        keep(top),
        forall|j: int| 0 <= j < n && #[trigger] keep(j) ==> !outranks(events, j, top),
    decreases n,
{
    if i == n - 1 {
        if exists|k: int| 0 <= k < n - 1 && #[trigger] keep(k) {
            let k = choose|k: int| 0 <= k < n - 1 && #[trigger] keep(k);
            let before = lemma_unoutranked(events, keep, n - 1, k);
            if outranks(events, n - 1, before) {
                n - 1
            } else {
                before
            }
        } else {
            i
        }
    } else {
        let before = lemma_unoutranked(events, keep, n - 1, i);
        if keep(n - 1) && outranks(events, n - 1, before) {
            n - 1
        } else {
            before
        }
    }
}

/// The listed cards of one author hold cards.
pub proof fn lemma_listing(events: Seq<CardEventView>, pubkey: Seq<char>)
    ensures
        all_carded(events, listing(events, pubkey)),
        below(listing(events, pubkey), events.len() as int),
        forall|i: int|
            0 <= i < listing(events, pubkey).len() ==> is_listed(
                events,
                #[trigger] listing(events, pubkey)[i],
            ) && events[listing(events, pubkey)[i]].event.pubkey == pubkey,
        forall|p: int|
            is_listed(events, p) && events[p].event.pubkey == pubkey
                ==> #[trigger] listing(events, pubkey).contains(p),
{
    let keep = listing_rule(events, pubkey);
    crate::ranking::lemma_select(events.len(), keep);
    let entries = listing(events, pubkey);
    assert forall|i: int| 0 <= i < entries.len() implies 0 <= #[trigger] entries[i] < events.len()
        && is_listed(events, entries[i]) && events[entries[i]].event.pubkey == pubkey by {
        assert(keep(entries[i]));
    }
    assert forall|p: int|
        is_listed(events, p) && events[p].event.pubkey
            == pubkey implies #[trigger] entries.contains(p) by {
        assert(keep(p));
    }
}

/// An author with a carded event has a listed card.
pub proof fn lemma_listing_is_not_empty(events: Seq<CardEventView>, i: int)
    requires
        is_carded(events, i),
    ensures
        listing(events, events[i].event.pubkey).len() > 0,
{
    let pubkey = events[i].event.pubkey;
    let keep = |j: int| is_carded(events, j) && same_card_name(events, j, i);
    let top = lemma_unoutranked(events, keep, events.len() as int, i);
    assert(is_listed(events, top)) by {
        assert forall|j: int|
            #[trigger] is_carded(events, j) && same_card_name(events, j, top) implies !outranks(
            events,
            j,
            top,
        ) by {
            assert(keep(j));
        }
    }
    lemma_listing(events, pubkey);
    assert(listing(events, pubkey).contains(top));
}

/// The agent that the author of event `i` makes up.
fn build_agent(
    filter: &AgentFilter,
    events: &Vec<CardEvent>,
    listed: &Vec<bool>,
    created: &Vec<u64>,
    i: usize,
) -> (agent: DiscoveredAgent)
    requires
        is_carded(card_events(events@), i as int),
        listed@.len() == events@.len(),
        forall|j: int|
            0 <= j < events@.len() ==> #[trigger] listed@[j] == is_listed(
                card_events(events@),
                j,
            ),
        created@ == ages(card_events(events@)),
    ensures
        agent@ == agent_of(filter@, card_events(events@), i as int),
{
    let ghost all = card_events(events@);
    assert(all[i as int] == events@[i as int]@);
    let pubkey = &events[i].event.pubkey;
    let entries = list_entries(events, listed, pubkey);
    proof {
        lemma_listing(all, pubkey@);
        lemma_listing_is_not_empty(all, i as int);
    }
    let order = rank(&entries, created);
    let ghost newest_first = ranked(positions_of(entries@), ages(all));
    proof {
        crate::ranking::ranking_descends(positions_of(entries@), ages(all));
        crate::ranking::lemma_ranked_members(positions_of(entries@), ages(all));
        assert forall|k: int| 0 <= k < newest_first.len() implies 0 <= #[trigger] newest_first[k]
            < all.len() && all[newest_first[k]].card is Some by {
            assert(newest_first.contains(newest_first[k]));
            let m = choose|m: int|
                0 <= m < positions_of(entries@).len() && positions_of(entries@)[m]
                    == newest_first[k];
            assert(0 <= positions_of(entries@)[m] < all.len());
        }
        assert(positions_of(order@) == newest_first);
    }
    let mut cards: Vec<CapabilityCard> = Vec::new();
    for k in 0..order.len()
        invariant
            all == card_events(events@),
            positions_of(order@) == newest_first,
            forall|m: int|
                0 <= m < newest_first.len() ==> 0 <= #[trigger] newest_first[m] < all.len()
                    && all[newest_first[m]].card is Some,
            cards@.len() == k,
            forall|m: int|
                0 <= m < k ==> (#[trigger] cards@[m])@ == all[newest_first[m]].card->0,
    {
        assert(newest_first[k as int] == positions_of(order@)[k as int]);
        let entry = &events[order[k]];
        assert(all[newest_first[k as int]] == entry@);
        if let Some(card) = &entry.card {
            cards.push(card.clone());
        }
    }
    assert(newest_first[0] == positions_of(order@)[0]);
    let newest = order[0];
    assert(all[newest as int] == events@[newest as int]@);
    let agent = DiscoveredAgent {
        pubkey: pubkey.clone(),
        cards,
        event_id: events[newest].event.id.clone(),
        supported_kinds: merge_kinds(events, &entries),
        match_count: best_count(events, &entries, &filter.capabilities),
    };
    assert(agent@.cards =~= newest_first.map_values(|j: int| all[j].card->0));
    agent
}

/// The agents that the fetched events make up and the filter lets through.
///
/// Of several events with the same author and d-tag only the newest counts, the same card
/// may arrive from multiple relays. An agent is returned only if it has all of the requested
/// capabilities and one of its cards satisfies the free-text query. Agents come out by
/// descending match count, at most as many as the filter's limit.
pub(crate) fn find_agents(filter: &AgentFilter, events: &Vec<CardEvent>) -> (agents: Vec<DiscoveredAgent>)
    ensures
        agent_views(agents@) == search_result(filter@, card_events(events@)),
{
    let ghost all = card_events(events@);
    let ghost keep = admission_rule(filter@, all);
    let carded = mark_carded(events);
    let listed = mark_listed(events, &carded);
    let mut created: Vec<u64> = Vec::new();
    let mut points: Vec<u64> = Vec::new();
    let mut chosen: Vec<usize> = Vec::new();
    for i in 0..events.len()
        invariant
            all == card_events(events@),
            keep == admission_rule(filter@, all),
            carded@.len() == events@.len(),
            listed@.len() == events@.len(),
            forall|j: int|
                0 <= j < events@.len() ==> #[trigger] carded@[j] == is_carded(all, j),
            forall|j: int|
                0 <= j < events@.len() ==> #[trigger] listed@[j] == is_listed(all, j),
            created@ == ages(all).take(i as int),
            points@ == scores(filter@, all).take(i as int),
            positions_of(chosen@) == select(i as nat, keep),
    {
        assert(all[i as int] == events@[i as int]@);
        let pubkey = &events[i].event.pubkey;
        let entries = list_entries(events, &listed, pubkey);
        proof {
            lemma_listing(all, pubkey@);
        }
        let best = best_count(events, &entries, &filter.capabilities);
        let ghost before = chosen@;
        assert(select((i + 1) as nat, keep) == if keep(i as int) {
            select(i as nat, keep).push(i as int)
        } else {
            select(i as nat, keep)
        });
        let leading = leads(events, &carded, i);
        if leading && admits(filter, events, &entries) {
            chosen.push(i);
            assert(positions_of(chosen@) =~= positions_of(before).push(i as int));
        }
        created.push(events[i].event.created_at);
        points.push(best as u64);
        assert(created@ =~= ages(all).take(i + 1));
        assert(scores(filter@, all)[i as int] == best as u64);
        assert(points@ =~= scores(filter@, all).take(i + 1));
    }
    proof {
        assert(ages(all).take(all.len() as int) =~= ages(all));
        assert(scores(filter@, all).take(all.len() as int) =~= scores(filter@, all));
        crate::ranking::lemma_select(all.len(), keep);
        assert(below(positions_of(chosen@), points@.len() as int));
    }
    let mut order = rank(&chosen, &points);
    let ghost whole = positions_of(order@);
    proof {
        crate::ranking::lemma_ranked_members(positions_of(chosen@), points@);
        assert forall|k: int| 0 <= k < whole.len() implies is_carded(all, #[trigger] whole[k]) by {
            assert(whole.contains(whole[k]));
            let m = choose|m: int|
                0 <= m < positions_of(chosen@).len() && positions_of(chosen@)[m] == whole[k];
            assert(keep(positions_of(chosen@)[m]));
        }
    }
    if let Some(limit) = filter.limit {
        order.truncate(limit);
    }
    let ghost shown = positions_of(order@);
    proof {
        assert(shown =~= limited(whole, filter@.limit));
        assert forall|k: int| 0 <= k < shown.len() implies is_carded(all, #[trigger] shown[k]) by {
            assert(shown[k] == whole[k]);
        }
    }
    let mut agents: Vec<DiscoveredAgent> = Vec::new();
    for k in 0..order.len()
        invariant
            all == card_events(events@),
            shown == positions_of(order@),
            forall|m: int| 0 <= m < shown.len() ==> is_carded(all, #[trigger] shown[m]),
            listed@.len() == events@.len(),
            forall|j: int|
                0 <= j < events@.len() ==> #[trigger] listed@[j] == is_listed(all, j),
            created@ == ages(all),
            agents@.len() == k,
            forall|m: int|
                0 <= m < k ==> (#[trigger] agents@[m])@ == agent_of(
                    filter@,
                    all,
                    shown[m],
                ),
    {
        assert(shown[k as int] == order@[k as int]);
        agents.push(build_agent(filter, events, &listed, &created, order[k]));
    }
    assert(agent_views(agents@) =~= search_result(filter@, all));
    agents
}

} // verus!
