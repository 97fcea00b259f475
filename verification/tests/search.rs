use elisym_core::discovery::{
    AgentFilter, CardEvent, DiscoveredAgent, DiscoveryService, HeartbeatAction, HeartbeatEvent,
};
use elisym_core::error::ElisymError;
use elisym_core::event::Event;
use elisym_core::identity::CapabilityCard;

fn service() -> DiscoveryService {
    DiscoveryService::new("ab12".to_string())
}

fn tag(name: &str, value: &str) -> Vec<String> {
    vec![name.to_string(), value.to_string()]
}

fn card(name: &str, capabilities: &[&str]) -> CapabilityCard {
    CapabilityCard::new(name, "", capabilities.iter().map(|c| c.to_string()).collect())
}

/// The event of a published card.
fn published(
    id: &str,
    author: &str,
    created_at: u64,
    name: &str,
    capabilities: &[&str],
    kinds: &[u16],
) -> CardEvent {
    let mut card = card(name, capabilities);
    card.payment = Some("pay".to_string());
    let draft = service().publish_capability(&card, kinds, Ok("{}".to_string())).unwrap();
    CardEvent {
        event: Event {
            id: id.to_string(),
            pubkey: author.to_string(),
            created_at,
            kind: draft.kind,
            tags: draft.tags,
            content: draft.content,
        },
        card: Some(card),
    }
}

fn search(filter: &AgentFilter, events: Vec<CardEvent>) -> Vec<DiscoveredAgent> {
    service().search_agents(filter, &events)
}

fn wanting(capabilities: &[&str]) -> AgentFilter {
    AgentFilter {
        capabilities: capabilities.iter().map(|c| c.to_string()).collect(),
        ..AgentFilter::default()
    }
}

fn keys(agents: &[DiscoveredAgent]) -> Vec<&str> {
    agents.iter().map(|agent| agent.pubkey.as_str()).collect()
}

#[test]
fn published_card_has_its_tags() {
    let event = published("1", "a", 1, "My  Agent", &["x", "y z"], &[5100, 7]).event;
    assert_eq!(event.kind, 31990);
    assert_eq!(
        event.tags,
        vec![
            tag("d", "my-agent"),
            tag("t", "elisym"),
            tag("k", "5100"),
            tag("k", "7"),
            tag("t", "x"),
            tag("t", "y z"),
        ]
    );
}

#[test]
fn card_without_payment_is_refused() {
    let err = service()
        .publish_capability(&card("a", &[]), &[], Ok("{}".to_string()))
        .unwrap_err();
    assert_eq!(
        err.to_string(),
        "Invalid capability card: payment info is required to publish a capability card"
    );
}

#[test]
fn unwritable_card_is_refused() {
    let mut card = card("a", &[]);
    card.payment = Some("pay".to_string());
    let error = serde_json::from_str::<String>("x").unwrap_err();
    let err = service().publish_capability(&card, &[], Err(error)).unwrap_err();
    assert!(matches!(err, ElisymError::Json(_)));
}

#[test]
fn profile_is_made_from_the_card() {
    let card = CapabilityCard::new("Agent", "Does stuff", vec![]);
    let profile = service().update_profile(&card);
    assert_eq!(profile.name, "Agent");
    assert_eq!(profile.about, "Does stuff | Powered by Elisym");
    assert_eq!(profile.picture, "https://robohash.org/ab12");
    assert_eq!(profile.website, "https://elisym.network");
}

#[test]
fn relays_are_asked_for_network_and_kind() {
    let query = service().search_query(&AgentFilter::default());
    assert_eq!(query.kind, 31990);
    assert_eq!(query.tags, vec![tag("t", "elisym")]);
    assert_eq!((query.author, query.since), (None, None));
    let filter = AgentFilter {
        job_kind: Some(5100),
        since: Some(9),
        pubkey: Some("aa".to_string()),
        ..wanting(&["x"])
    };
    let query = service().search_query(&filter);
    assert_eq!(query.tags, vec![tag("t", "elisym"), tag("k", "5100")]);
    assert_eq!((query.author, query.since), (Some("aa".to_string()), Some(9)));
}

#[test]
fn published_agent_is_discovered() {
    let agents = search(
        &wanting(&["stock"]),
        vec![published("1", "a", 1, "Market", &["stocks"], &[5100])],
    );
    assert_eq!(agents.len(), 1);
    assert_eq!(agents[0].pubkey, "a");
    assert_eq!(agents[0].event_id, "1");
    assert_eq!(agents[0].supported_kinds, vec![5100]);
    assert_eq!(agents[0].match_count, 1);
    assert_eq!(agents[0].cards[0].name, "Market");
}

#[test]
fn only_the_newest_event_of_a_card_counts() {
    let agents = search(
        &AgentFilter::default(),
        vec![
            published("1", "a", 5, "Agent", &["old"], &[1]),
            published("2", "a", 9, "Agent", &["new"], &[2]),
            published("3", "a", 9, "Agent", &["late"], &[3]),
            published("4", "a", 7, "Agent", &["mid"], &[4]),
        ],
    );
    assert_eq!(agents.len(), 1);
    assert_eq!(agents[0].event_id, "2");
    assert_eq!(agents[0].cards.len(), 1);
    assert_eq!(agents[0].cards[0].capabilities, vec!["new".to_string()]);
    assert_eq!(agents[0].supported_kinds, vec![2]);
    assert_eq!(agents[0].match_count, 0);
}

#[test]
fn cards_come_newest_first_and_kinds_once() {
    let agents = search(
        &AgentFilter::default(),
        vec![
            published("1", "a", 5, "One", &[], &[10, 11]),
            published("2", "a", 9, "Two", &[], &[11, 12]),
            published("3", "a", 7, "Three", &[], &[10]),
        ],
    );
    let names: Vec<&str> = agents[0].cards.iter().map(|card| card.name.as_str()).collect();
    assert_eq!(names, vec!["Two", "Three", "One"]);
    assert_eq!(agents[0].event_id, "2");
    assert_eq!(agents[0].supported_kinds, vec![10, 11, 12]);
}

#[test]
fn same_name_under_two_d_tags_is_one_card() {
    let mut renamed = published("2", "a", 9, "Agent", &["new"], &[2]);
    renamed.event.tags[0] = tag("d", "elsewhere");
    let agents = search(
        &AgentFilter::default(),
        vec![published("1", "a", 5, "Agent", &["old"], &[1]), renamed],
    );
    assert_eq!(agents[0].cards.len(), 1);
    assert_eq!(agents[0].cards[0].capabilities, vec!["new".to_string()]);
    assert_eq!(agents[0].supported_kinds, vec![2]);
}

#[test]
fn unreadable_cards_are_skipped() {
    let mut broken = published("1", "a", 5, "Agent", &[], &[]);
    broken.card = None;
    assert!(search(&AgentFilter::default(), vec![broken]).is_empty());
}

#[test]
fn newer_unreadable_event_hides_the_older_one() {
    let mut broken = published("2", "a", 9, "Agent", &[], &[]);
    broken.card = None;
    let events = vec![published("1", "a", 5, "Agent", &[], &[]), broken];
    assert!(search(&AgentFilter::default(), events).is_empty());
}

#[test]
fn all_capabilities_are_required() {
    let events = || {
        vec![
            published("1", "a", 1, "One", &["summarization"], &[]),
            published("2", "b", 2, "Two", &["translation", "summarization"], &[]),
            published("3", "c", 3, "Three", &["translation"], &[]),
        ]
    };
    assert_eq!(keys(&search(&wanting(&["summarization", "translation"]), events())), vec!["b"]);
    assert_eq!(keys(&search(&wanting(&["translation"]), events())), vec!["b", "c"]);
    assert!(search(&wanting(&["cooking"]), events()).is_empty());
    assert_eq!(search(&wanting(&[]), events()).len(), 3);
}

#[test]
fn empty_capability_admits_nobody() {
    let events = || vec![published("1", "a", 1, "One", &["summarization"], &[])];
    assert!(search(&wanting(&[""]), events()).is_empty());
    assert!(search(&wanting(&["-"]), events()).is_empty());
}

#[test]
fn capabilities_may_be_spread_over_cards() {
    let agents = search(
        &wanting(&["summarization", "translation"]),
        vec![
            published("1", "a", 1, "One", &["summarization"], &[]),
            published("2", "a", 2, "Two", &["translation"], &[]),
            published("3", "b", 3, "Three", &["translation", "summarization"], &[]),
        ],
    );
    // The agent with both on one card comes first.
    assert_eq!(keys(&agents), vec!["b", "a"]);
    assert_eq!(agents[0].match_count, 2);
    assert_eq!(agents[1].match_count, 1);
}

#[test]
fn text_query_filters_agents() {
    let events = vec![
        published("1", "a", 1, "Stock Analyzer", &[], &[]),
        published("2", "b", 2, "Translator", &["stocks"], &[]),
        published("3", "c", 3, "Cook", &[], &[]),
    ];
    let filter = AgentFilter { query: Some("STOCK".to_string()), ..AgentFilter::default() };
    assert_eq!(keys(&search(&filter, events)), vec!["a", "b"]);
}

#[test]
fn limit_truncates() {
    let events = || {
        vec![
            published("1", "a", 1, "One", &["x"], &[]),
            published("2", "b", 2, "Two", &["x"], &[]),
        ]
    };
    let limited = |limit| AgentFilter { limit: Some(limit), ..AgentFilter::default() };
    assert_eq!(search(&limited(1), events()).len(), 1);
    assert_eq!(keys(&search(&limited(1), events())), vec!["a"]);
    assert_eq!(search(&limited(0), events()).len(), 0);
    assert_eq!(search(&limited(5), events()).len(), 2);
}

#[test]
fn kinds_that_are_no_numbers_are_skipped() {
    let mut event = published("1", "a", 1, "One", &[], &[7]);
    event.event.tags.push(tag("k", "abc"));
    event.event.tags.push(tag("k", "70000"));
    event.event.tags.push(tag("k", "+8"));
    event.event.tags.push(vec!["k".to_string()]);
    let agents = search(&AgentFilter::default(), vec![event]);
    assert_eq!(agents[0].supported_kinds, vec![7, 8]);
}

#[test]
fn heartbeat_publishes_on_ticks() {
    let mut heartbeat = service().start_heartbeat(false);
    assert_eq!(heartbeat.on_event(HeartbeatEvent::Tick), HeartbeatAction::Publish);
    assert_eq!(heartbeat.on_event(HeartbeatEvent::Tick), HeartbeatAction::Publish);
    assert_eq!(heartbeat.on_event(HeartbeatEvent::Shutdown), HeartbeatAction::Stop);
    assert_eq!(heartbeat.on_event(HeartbeatEvent::Tick), HeartbeatAction::Stop);
    let mut heartbeat = service().start_heartbeat(true);
    assert_eq!(heartbeat.on_event(HeartbeatEvent::Tick), HeartbeatAction::Wait);
    assert_eq!(heartbeat.on_event(HeartbeatEvent::Tick), HeartbeatAction::Publish);
}
