//! What the discovery service sends to the relays and makes of what they send back.
use vstd::prelude::*;

use crate::discovery::heartbeat::Heartbeat;
use crate::discovery::matching::{d_tag_form, to_d_tag};
use crate::discovery::search::{
    agent_views, card_events, find_agents, search_result, AgentFilter, AgentFilterView, CardEvent,
    DiscoveredAgent,
};
use crate::error::ElisymError;
use crate::event::{
    make_tag, tag_of, EventDraft, EventDraftView, RelayFilter, RelayFilterView, KIND_APP_HANDLER,
};
use crate::identity::{CapabilityCard, CapabilityCardView};
use crate::number::{decimal, decimal_text};
use crate::text::{text_lists, texts};

verus! {

/// The tags of a published card: its d-tag, the network's tag, the supported job kinds and
/// the capabilities.
pub open spec fn card_tags(card: CapabilityCardView, kinds: Seq<u16>) -> Seq<Seq<Seq<char>>> {
    seq![tag_of("d"@, d_tag_form(card.name)), tag_of("t"@, "elisym"@)] + kinds.map_values(
        |kind: u16| tag_of("k"@, decimal(kind as nat)),
    ) + card.capabilities.map_values(|capability: Seq<char>| tag_of("t"@, capability))
}

/// What a relay is asked for on behalf of a search.
pub open spec fn search_filter(filter: AgentFilterView) -> RelayFilterView {
    let network = seq![tag_of("t"@, "elisym"@)];
    RelayFilterView {
        kind: KIND_APP_HANDLER,
        author: filter.pubkey,
        since: filter.since,
        tags: match filter.job_kind {
            Some(kind) => network.push(tag_of("k"@, decimal(kind as nat))),
            None => network,
        },
    }
}

/// Profile metadata (kind 0) made from a capability card.
#[derive(Debug)]
pub struct ProfileDraft {
    pub name: String,
    pub about: String,
    pub picture: String,
    pub website: String,
}

/// Service for publishing and discovering agent capabilities via NIP-89.
#[derive(Debug, Clone)]
pub struct DiscoveryService {
    /// The agent's own public key in hexadecimal.
    pub public_key: String,
}

/// Appends one tag with the name `name` for each value.
fn push_tags(tags: &mut Vec<Vec<String>>, name: &str, values: &Vec<String>)
    ensures
        text_lists(final(tags)@) == text_lists(old(tags)@) + texts(values@).map_values(
            |value: Seq<char>| tag_of(name@, value),
        ),
{
    let ghost start = text_lists(tags@);
    let ghost added = texts(values@).map_values(|value: Seq<char>| tag_of(name@, value));
    for i in 0..values.len()
        invariant
            added == texts(values@).map_values(|value: Seq<char>| tag_of(name@, value)),
            text_lists(tags@) == start + added.take(i as int),
    {
        let ghost before = tags@;
        let tag = make_tag(name, values[i].as_str());
        tags.push(tag);
        assert(text_lists(tags@) =~= text_lists(before).push(texts(tag@)));
        assert(added[i as int] == texts(tag@));
        assert(text_lists(tags@) =~= start + added.take(i + 1));
    }
    assert(added.take(values@.len() as int) =~= added);
}

/// The job kinds in decimal.
fn kind_texts(kinds: &[u16]) -> (written: Vec<String>)
    ensures
        texts(written@) == kinds@.map_values(|kind: u16| decimal(kind as nat)),
{
    let mut written: Vec<String> = Vec::new();
    for i in 0..kinds.len()
        invariant
            written@.len() == i,
            forall|j: int| 0 <= j < i ==> (#[trigger] written@[j])@ == decimal(kinds@[j] as nat),
    {
        written.push(decimal_text(kinds[i] as u64));
    }
    assert(texts(written@) =~= kinds@.map_values(|kind: u16| decimal(kind as nat)));
    written
}

impl DiscoveryService {
    pub fn new(public_key: String) -> (service: Self)
        ensures
            service.public_key == public_key,
    {
        DiscoveryService { public_key }
    }

    /// A capability card as a NIP-89 kind:31990 parameterized replaceable event.
    ///
    /// `card_json` is the card's JSON, or the error that writing it gave. A card without
    /// payment info is refused.
    pub fn publish_capability(
        &self,
        card: &CapabilityCard,
        supported_job_kinds: &[u16],
        card_json: Result<String, serde_json::Error>,
    ) -> (draft: Result<EventDraft, ElisymError>)
        ensures
            match draft {
                Ok(draft) => {
                    &&& card.payment is Some
                    &&& card_json matches Ok(json) && draft@ == (EventDraftView {
                        kind: KIND_APP_HANDLER,
                        content: json@,
                        tags: card_tags(card@, supported_job_kinds@),
                    })
                },
                Err(ElisymError::InvalidCapabilityCard(detail)) => {
                    &&& card.payment is None
                    &&& detail@ == "payment info is required to publish a capability card"@
                },
                Err(ElisymError::Json(error)) => {
                    &&& card.payment is Some
                    &&& card_json == Err::<String, serde_json::Error>(error)
                },
                Err(_) => false,
            },
    {
        if card.payment.is_none() {
            return Err(
                ElisymError::InvalidCapabilityCard(
                    "payment info is required to publish a capability card".to_owned(),
                ),
            );
        }
        let content = match card_json {
            Ok(content) => content,
            Err(error) => {
                return Err(ElisymError::from(error));
            },
        };
        let mut tags: Vec<Vec<String>> = Vec::new();
        tags.push(make_tag("d", to_d_tag(card.name.as_str()).as_str()));
        tags.push(make_tag("t", "elisym"));
        assert(text_lists(tags@) =~= seq![
            tag_of("d"@, d_tag_form(card@.name)),
            tag_of("t"@, "elisym"@),
        ]);
        let kinds = kind_texts(supported_job_kinds);
        push_tags(&mut tags, "k", &kinds);
        push_tags(&mut tags, "t", &card.capabilities);
        assert(texts(kinds@).map_values(|value: Seq<char>| tag_of("k"@, value))
            =~= supported_job_kinds@.map_values(|kind: u16| tag_of("k"@, decimal(kind as nat))));
        assert(text_lists(tags@) =~= card_tags(card@, supported_job_kinds@));
        Ok(EventDraft { kind: KIND_APP_HANDLER, content, tags })
    }

    /// The Nostr kind:0 profile metadata from the capability card: name, description, picture
    /// and website.
    pub fn update_profile(&self, card: &CapabilityCard) -> (profile: ProfileDraft)
        ensures
            profile.name@ == card@.name,
            profile.about@ == card@.description + " | Powered by Elisym"@,
            profile.picture@ == "https://robohash.org/"@ + self.public_key@,
            profile.website@ == "https://elisym.network"@,
    {
        ProfileDraft {
            name: card.name.clone(),
            about: card.description.clone().concat(" | Powered by Elisym"),
            picture: "https://robohash.org/".to_owned().concat(self.public_key.as_str()),
            website: "https://elisym.network".to_owned(),
        }
    }

    /// A background heartbeat that republishes the capability card to keep `created_at` fresh
    /// on relays.
    ///
    /// When `skip_first_tick` is `true`, the first publish happens after one interval; when
    /// `false`, the card is published immediately on start.
    pub fn start_heartbeat(&self, skip_first_tick: bool) -> (heartbeat: Heartbeat)
        ensures
            heartbeat == (Heartbeat { skip_next_tick: skip_first_tick, running: true }),
    {
        Heartbeat::begin(skip_first_tick)
    }

    /// What a relay is asked for on behalf of a search.
    ///
    /// Only the network's tag and the job kind are asked for: NIP-01 uses OR semantics for
    /// multiple values of a tag, so capabilities are filtered locally.
    pub fn search_query(&self, filter: &AgentFilter) -> (query: RelayFilter)
        ensures
            query@ == search_filter(filter@),
    {
        let mut tags: Vec<Vec<String>> = Vec::new();
        tags.push(make_tag("t", "elisym"));
        assert(text_lists(tags@) =~= seq![tag_of("t"@, "elisym"@)]);
        if let Some(kind) = filter.job_kind {
            let ghost before = tags@;
            tags.push(make_tag("k", decimal_text(kind as u64).as_str()));
            assert(text_lists(tags@) =~= text_lists(before).push(
                tag_of("k"@, decimal(kind as nat)),
            ));
        }
        RelayFilter {
            kind: KIND_APP_HANDLER,
            author: match &filter.pubkey {
                Some(pubkey) => Some(pubkey.clone()),
                None => None,
            },
            since: filter.since,
            tags,
        }
    }

    /// The agents among the fetched events that match the given filter.
    ///
    /// Capability filtering has AND semantics: an agent must have all of the requested
    /// capabilities. The `limit` field truncates results after fetching.
    pub fn search_agents(&self, filter: &AgentFilter, events: &Vec<CardEvent>) -> (agents: Vec<
        DiscoveredAgent,
    >)
        ensures
            agent_views(agents@) == search_result(filter@, card_events(events@)),
    {
        find_agents(filter, events)
    }
}

} // verus!
