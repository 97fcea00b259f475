//! What a search answers, told from the fetched events and the filter alone.
use vstd::prelude::*;

use crate::discovery::laws::{
    every_admitted_agent_is_returned, lemma_cards, lemma_search_order,
    published_tags_are_read_back, supported_kinds_are_those_of_the_cards,
};
use crate::discovery::matching::{
    capability_in_tags, capability_in_text, d_tag_form, query_on_card,
};
use crate::discovery::search::{
    agent_of, agent_views, ages, best_match, capability_on_card, capability_on_entries,
    card_events, is_admitted, is_carded, is_current, is_leader, is_listed, kinds_of, lemma_listing,
    listing, listing_rule, matches_on_card, merged_kinds, outranks, parsed_kinds, query_on_entries,
    same_card_name, same_slot, search_order, search_result, with_new_kinds, AgentFilter, AgentFilterView, CardEvent,
    CardEventView, DiscoveredAgent,
};
use crate::discovery::service::{card_tags, search_filter};
use crate::event::{
    d_tag_of, tag_counts_under_its_name, tag_value_is_held_by_a_tag, tag_values,
    tag_values_of_both, EventView,
};
use crate::identity::{CapabilityCard, CapabilityCardView};
use crate::number::{decimal, parsed_u16};
use crate::ranking::{lemma_ranked_members, lemma_select, ranked, ranking_is_stable};

verus! {

/// Whether event `i` goes before event `j`: it is newer, or as new and arrived earlier.
pub open spec fn goes_before(events: Seq<CardEventView>, i: int, j: int) -> bool {
    if events[i].event.created_at == events[j].event.created_at {
        i < j
    } else {
        events[j].event.created_at < events[i].event.created_at
    }
}

/// Whether event `i` is the version to go by: every other event of its author with its d-tag
/// comes behind it.
pub open spec fn is_newest_version(events: Seq<CardEventView>, i: int) -> bool {
    &&& 0 <= i < events.len()
    &&& forall|j: int|
        0 <= j < events.len() && j != i && (#[trigger] events[j]).event.pubkey
            == events[i].event.pubkey && d_tag_of(events[j].event.tags) == d_tag_of(
            events[i].event.tags,
        ) ==> goes_before(events, i, j)
}

/// Whether the card of event `i` counts: the event is the version to go by, it holds a card,
/// and every other such event of its author with a card of that name comes behind it.
pub open spec fn card_counts(events: Seq<CardEventView>, i: int) -> bool {
    &&& is_newest_version(events, i)
    &&& events[i].card is Some
    &&& forall|j: int|
        #[trigger] is_newest_version(events, j) && j != i && events[j].card is Some
            && events[j].event.pubkey == events[i].event.pubkey && events[j].card->0.name
            == events[i].card->0.name ==> goes_before(events, i, j)
}

/// The requested capabilities, by position, that a card has: through a `t` tag of its event,
/// its name or its description.
pub open spec fn capabilities_of(
    capabilities: Seq<Seq<char>>,
    entry: CardEventView,
    card: CapabilityCardView,
) -> Set<int> {
    Set::new(
        |c: int|
            0 <= c < capabilities.len() && (capability_in_tags(
                capabilities[c],
                tag_values(entry.event.tags, "t"@),
            ) || capability_in_text(capabilities[c], card.name) || capability_in_text(
                capabilities[c],
                card.description,
            )),
    )
}

/// Whether the card of one of the events has the requested capability at a position.
pub open spec fn some_card_has(
    capabilities: Seq<Seq<char>>,
    c: int,
    events: Seq<CardEventView>,
    order: Seq<int>,
) -> bool {
    exists|m: int|
        0 <= m < order.len() && #[trigger] capabilities_of(
            capabilities,
            events[order[m]],
            events[order[m]].card->0,
        ).contains(c)
}

/// A card is listed exactly where it counts.
pub proof fn listed_cards_are_those_that_count(events: Seq<CardEventView>, i: int)
    ensures
        is_current(events, i) <==> is_newest_version(events, i),
        is_listed(events, i) <==> card_counts(events, i),
{
    assert forall|m: int| #[trigger] is_current(events, m) == is_newest_version(events, m) by {
        if is_current(events, m) {
            assert forall|j: int|
                0 <= j < events.len() && j != m && (#[trigger] events[j]).event.pubkey
                    == events[m].event.pubkey && d_tag_of(events[j].event.tags) == d_tag_of(
                    events[m].event.tags,
                ) implies goes_before(events, m, j) by {
                assert(same_slot(events, j, m));
            }
        }
        if is_newest_version(events, m) {
            assert forall|j: int|
                0 <= j < events.len() && #[trigger] same_slot(events, j, m) implies !outranks(
                events,
                j,
                m,
            ) by {
                assert(events[j].event.pubkey == events[m].event.pubkey);
            }
        }
    }
    if is_listed(events, i) {
        assert forall|j: int|
            #[trigger] is_newest_version(events, j) && j != i && events[j].card is Some
                && events[j].event.pubkey == events[i].event.pubkey && events[j].card->0.name
                == events[i].card->0.name implies goes_before(events, i, j) by {
            assert(is_current(events, j));
            assert(is_carded(events, j) && same_card_name(events, j, i));
        }
    }
    if card_counts(events, i) {
        assert(is_current(events, i));
        assert forall|j: int|
            #[trigger] is_carded(events, j) && same_card_name(events, j, i) implies !outranks(
            events,
            j,
            i,
        ) by {
            assert(is_current(events, j));
            assert(is_newest_version(events, j));
        }
    }
}

/// A card's matches are counted capability by capability.
proof fn lemma_matches_are_counted(capabilities: Seq<Seq<char>>, entry: CardEventView)
    ensures
        capabilities_of(capabilities, entry, entry.card->0).finite(),
        matches_on_card(capabilities, entry) == capabilities_of(
            capabilities,
            entry,
            entry.card->0,
        ).len(),
    decreases capabilities.len(),
{
    let all = capabilities_of(capabilities, entry, entry.card->0);
    if capabilities.len() == 0 {
        assert(all =~= Set::empty());
    } else {
        let rest = capabilities.drop_last();
        lemma_matches_are_counted(rest, entry);
        let fewer = capabilities_of(rest, entry, entry.card->0);
        let last = capabilities.len() - 1;
        assert(capabilities[last] == capabilities.last());
        assert forall|c: int| 0 <= c < rest.len() implies #[trigger] rest[c] == capabilities[c] by {}
        if capability_on_card(capabilities.last(), entry) {
            assert(all =~= fewer.insert(last));
            assert(!fewer.contains(last));
        } else {
            assert(all =~= fewer);
        }
    }
}

/// The best match is that of one of the cards, and none is better.
proof fn lemma_best_match_is_reached(
    events: Seq<CardEventView>,
    entries: Seq<int>,
    capabilities: Seq<Seq<char>>,
)
    requires
        entries.len() > 0,
    ensures
        forall|m: int|
            0 <= m < entries.len() ==> matches_on_card(capabilities, events[#[trigger] entries[m]])
                <= best_match(events, entries, capabilities),
        exists|m: int|
            0 <= m < entries.len() && matches_on_card(capabilities, events[#[trigger] entries[m]])
                == best_match(events, entries, capabilities),
    decreases entries.len(),
{
    let rest = entries.drop_last();
    let best = best_match(events, entries, capabilities);
    if rest.len() > 0 {
        lemma_best_match_is_reached(events, rest, capabilities);
        let m = choose|m: int|
            0 <= m < rest.len() && matches_on_card(capabilities, events[#[trigger] rest[m]])
                == best_match(events, rest, capabilities);
        assert(entries[m] == rest[m]);
    } else {
        assert(best_match(events, rest, capabilities) == 0);
    }
    assert(entries[entries.len() - 1] == entries.last());
    assert forall|m: int| 0 <= m < entries.len() implies matches_on_card(
        capabilities,
        events[#[trigger] entries[m]],
    ) <= best by {
        if m < rest.len() {
            assert(rest[m] == entries[m]);
        }
    }
}

/// A job kind is among those of an event exactly where a `k` tag of it stands for the kind.
proof fn lemma_kinds(entry: CardEventView, kind: u16)
    ensures
        kinds_of(entry.event).contains(kind) <==> exists|t: int|
            0 <= t < entry.event.tags.len() && (#[trigger] entry.event.tags[t]).len() >= 2
                && entry.event.tags[t][0] == "k"@ && parsed_u16(entry.event.tags[t][1]) == Some(
                kind,
            ),
{
    let tags = entry.event.tags;
    let values = tag_values(tags, "k"@);
    lemma_parsed_kinds(values, kind);
    if kinds_of(entry.event).contains(kind) {
        let v = choose|v: int| 0 <= v < values.len() && parsed_u16(#[trigger] values[v]) == Some(kind);
        assert(values.contains(values[v]));
        tag_value_is_held_by_a_tag(tags, "k"@, values[v]);
    }
    if exists|t: int|
        0 <= t < tags.len() && (#[trigger] tags[t]).len() >= 2 && tags[t][0] == "k"@
            && parsed_u16(tags[t][1]) == Some(kind) {
        let t = choose|t: int|
            0 <= t < tags.len() && (#[trigger] tags[t]).len() >= 2 && tags[t][0] == "k"@
                && parsed_u16(tags[t][1]) == Some(kind);
        tag_value_is_held_by_a_tag(tags, "k"@, tags[t][1]);
        let v = choose|v: int| 0 <= v < values.len() && values[v] == tags[t][1];
        assert(parsed_u16(values[v]) == Some(kind));
    }
}

/// A kind is among the parsed ones exactly where one of the values stands for it.
proof fn lemma_parsed_kinds(values: Seq<Seq<char>>, kind: u16)
    ensures
        parsed_kinds(values).contains(kind) <==> exists|v: int|
            0 <= v < values.len() && parsed_u16(#[trigger] values[v]) == Some(kind),
    decreases values.len(),
{
    if values.len() > 0 {
        let rest = values.drop_last();
        lemma_parsed_kinds(rest, kind);
        let before = parsed_kinds(rest);
        let all = parsed_kinds(values);
        let last = values[values.len() - 1];
        if before.contains(kind) {
            let v = choose|v: int| 0 <= v < rest.len() && parsed_u16(#[trigger] rest[v]) == Some(kind);
            assert(values[v] == rest[v]);
            let k = choose|k: int| 0 <= k < before.len() && before[k] == kind;
            assert(all[k] == kind);
        }
        if parsed_u16(last) == Some(kind) {
            assert(all[all.len() - 1] == kind);
        }
        if all.contains(kind) && !before.contains(kind) {
            let k = choose|k: int| 0 <= k < all.len() && all[k] == kind;
            if k < before.len() {
                assert(before[k] == kind);
            }
        }
        if exists|v: int| 0 <= v < values.len() && parsed_u16(#[trigger] values[v]) == Some(kind) {
            let v = choose|v: int|
                0 <= v < values.len() && parsed_u16(#[trigger] values[v]) == Some(kind);
            if v < rest.len() {
                assert(rest[v] == values[v]);
            }
        }
    }
}

/// A returned agent holds the whole cards of its author that count, all of them and nothing
/// else, newest first, and the id of the newest one's event.
pub proof fn agent_holds_the_cards_of_its_author(
    filter: AgentFilterView,
    events: Seq<CardEventView>,
    k: int,
) -> (order: Seq<int>)
    requires
        0 <= k < search_result(filter, events).len(),
    ensures
        ({
            let agent = search_result(filter, events)[k];
            &&& agent.cards.len() == order.len() > 0
            &&& forall|m: int|
                0 <= m < order.len() ==> {
                    &&& card_counts(events, #[trigger] order[m])
                    &&& events[order[m]].event.pubkey == agent.pubkey
                    &&& events[order[m]].card == Some(agent.cards[m])
                }
            &&& forall|i: int|
                #[trigger] card_counts(events, i) && events[i].event.pubkey == agent.pubkey
                    ==> order.contains(i)
            &&& forall|a: int, b: int|
                0 <= a < b < order.len() ==> goes_before(
                    events,
                    #[trigger] order[a],
                    #[trigger] order[b],
                )
            &&& agent.event_id == events[order[0]].event.id
        }),
{
    let (i, order) = lemma_agent_order(filter, events, k);
    order
}

/// The event that leads a returned agent, and the events of its cards, newest first.
proof fn lemma_agent_order(
    filter: AgentFilterView,
    events: Seq<CardEventView>,
    k: int,
) -> (found: (int, Seq<int>))
    requires
        0 <= k < search_result(filter, events).len(),
    ensures
        ({
            let (i, order) = found;
            let agent = search_result(filter, events)[k];
            &&& is_leader(events, i)
            &&& agent == agent_of(filter, events, i)
            &&& agent.pubkey == events[i].event.pubkey
            &&& is_admitted(filter, events, agent.pubkey)
            &&& order == ranked(listing(events, agent.pubkey), ages(events))
            &&& agent.cards.len() == order.len() > 0
            &&& forall|m: int|
                0 <= m < order.len() ==> {
                    &&& card_counts(events, #[trigger] order[m])
                    &&& events[order[m]].event.pubkey == agent.pubkey
                    &&& events[order[m]].card == Some(agent.cards[m])
                }
            &&& forall|j: int|
                #[trigger] card_counts(events, j) && events[j].event.pubkey == agent.pubkey
                    ==> order.contains(j)
            &&& forall|a: int, b: int|
                0 <= a < b < order.len() ==> goes_before(
                    events,
                    #[trigger] order[a],
                    #[trigger] order[b],
                )
            &&& agent.event_id == events[order[0]].event.id
        }),
{
    lemma_search_order(filter, events);
    let i = search_order(filter, events)[k];
    let agent = search_result(filter, events)[k];
    assert(is_leader(events, i));
    let pubkey = events[i].event.pubkey;
    let entries = listing(events, pubkey);
    let order = ranked(entries, ages(events));
    lemma_cards(filter, events, i);
    lemma_listing(events, pubkey);
    lemma_select(events.len(), listing_rule(events, pubkey));
    ranking_is_stable(entries, ages(events));
    lemma_ranked_members(entries, ages(events));
    assert forall|m: int| 0 <= m < order.len() implies {
        &&& card_counts(events, #[trigger] order[m])
        &&& events[order[m]].event.pubkey == agent.pubkey
        &&& events[order[m]].card == Some(agent.cards[m])
    } by {
        assert(is_listed(events, order[m]));
        listed_cards_are_those_that_count(events, order[m]);
    }
    assert forall|j: int|
        #[trigger] card_counts(events, j) && events[j].event.pubkey == agent.pubkey implies
        order.contains(j) by {
        listed_cards_are_those_that_count(events, j);
        assert(entries.contains(j));
    }
    assert forall|a: int, b: int| 0 <= a < b < order.len() implies goes_before(
        events,
        #[trigger] order[a],
        #[trigger] order[b],
    ) by {
        assert(is_listed(events, order[a]) && is_listed(events, order[b]));
        assert(ages(events)[order[a]] >= ages(events)[order[b]]);
    }
    (i, order)
}

/// A returned agent has every requested capability on one of its cards, satisfies the query
/// with one of them, supports exactly the kinds that its cards' events name, each once, and
/// its match count is the number of requested capabilities that the best of its cards has.
pub proof fn agent_answers_the_filter(
    filter: AgentFilterView,
    events: Seq<CardEventView>,
    k: int,
) -> (order: Seq<int>)
    requires
        0 <= k < search_result(filter, events).len(),
    ensures
        ({
            let agent = search_result(filter, events)[k];
            &&& agent.cards.len() == order.len() > 0
            &&& forall|m: int|
                0 <= m < order.len() ==> card_counts(events, #[trigger] order[m])
                    && events[order[m]].event.pubkey == agent.pubkey && events[order[m]].card
                    == Some(agent.cards[m])
            &&& forall|c: int|
                0 <= c < filter.capabilities.len() ==> #[trigger] some_card_has(
                    filter.capabilities,
                    c,
                    events,
                    order,
                )
            &&& filter.query matches Some(query) ==> exists|m: int|
                0 <= m < order.len() && query_on_card(query, #[trigger] agent.cards[m])
            &&& agent.supported_kinds.no_duplicates()
            &&& forall|kind: u16| #[trigger]
                agent.supported_kinds.contains(kind) <==> exists|m: int, t: int|
                    0 <= m < order.len() && 0 <= t < events[order[m]].event.tags.len()
                        && #[trigger] names_kind(events[order[m]], t, kind)
            &&& forall|m: int|
                0 <= m < order.len() ==> #[trigger] capabilities_of(
                    filter.capabilities,
                    events[order[m]],
                    agent.cards[m],
                ).len() <= agent.match_count
            &&& exists|m: int|
                0 <= m < order.len() && #[trigger] capabilities_of(
                    filter.capabilities,
                    events[order[m]],
                    agent.cards[m],
                ).len() == agent.match_count
        }),
{
    let (i, order) = lemma_agent_order(filter, events, k);
    let agent = search_result(filter, events)[k];
    let entries = listing(events, agent.pubkey);
    lemma_ranked_members(entries, ages(events));
    lemma_listing(events, agent.pubkey);
    assert forall|m: int| 0 <= m < order.len() implies matches_on_card(
        filter.capabilities,
        events[#[trigger] order[m]],
    ) == capabilities_of(filter.capabilities, events[order[m]], agent.cards[m]).len() by {
        lemma_matches_are_counted(filter.capabilities, events[order[m]]);
        assert(events[order[m]].card == Some(agent.cards[m]));
    }
    assert forall|c: int| 0 <= c < filter.capabilities.len() implies #[trigger] some_card_has(
        filter.capabilities,
        c,
        events,
        order,
    ) by {
        assert(capability_on_entries(events, entries, filter.capabilities[c]));
        let e = choose|e: int|
            0 <= e < entries.len() && capability_on_card(
                filter.capabilities[c],
                events[#[trigger] entries[e]],
            );
        assert(entries.contains(entries[e]));
        assert(order.contains(entries[e]));
        let m = choose|m: int| 0 <= m < order.len() && order[m] == entries[e];
        assert(events[order[m]].card == Some(agent.cards[m]));
        assert(capabilities_of(
            filter.capabilities,
            events[order[m]],
            events[order[m]].card->0,
        ).contains(c));
    }
    if let Some(query) = filter.query {
        assert(query_on_entries(events, entries, filter.query));
        let e = choose|e: int|
            0 <= e < entries.len() && query_on_card(query, events[#[trigger] entries[e]].card->0);
        assert(entries.contains(entries[e]));
        assert(order.contains(entries[e]));
        let m = choose|m: int| 0 <= m < order.len() && order[m] == entries[e];
        assert(events[order[m]].card == Some(agent.cards[m]));
        assert(query_on_card(query, agent.cards[m]));
    }
    supported_kinds_are_those_of_the_cards(events, entries);
    assert forall|kind: u16| #[trigger]
        agent.supported_kinds.contains(kind) <==> exists|m: int, t: int|
            0 <= m < order.len() && 0 <= t < events[order[m]].event.tags.len()
                && #[trigger] names_kind(events[order[m]], t, kind) by {
        if agent.supported_kinds.contains(kind) {
            let e = choose|e: int|
                0 <= e < entries.len() && kinds_of(events[#[trigger] entries[e]].event).contains(
                    kind,
                );
            assert(entries.contains(entries[e]));
            assert(order.contains(entries[e]));
            let m = choose|m: int| 0 <= m < order.len() && order[m] == entries[e];
            lemma_kinds(events[order[m]], kind);
            let tags = events[order[m]].event.tags;
            let t = choose|t: int|
                0 <= t < tags.len() && (#[trigger] tags[t]).len() >= 2 && tags[t][0] == "k"@
                    && parsed_u16(tags[t][1]) == Some(kind);
            assert(names_kind(events[order[m]], t, kind));
        }
        if exists|m: int, t: int|
            0 <= m < order.len() && 0 <= t < events[order[m]].event.tags.len()
                && #[trigger] names_kind(events[order[m]], t, kind) {
            let (m, t) = choose|m: int, t: int|
                0 <= m < order.len() && 0 <= t < events[order[m]].event.tags.len()
                    && #[trigger] names_kind(events[order[m]], t, kind);
            let tags = events[order[m]].event.tags;
            assert(tags[t].len() >= 2);
            lemma_kinds(events[order[m]], kind);
            assert(order.contains(order[m]));
            assert(entries.contains(order[m]));
            let e = choose|e: int| 0 <= e < entries.len() && entries[e] == order[m];
            assert(kinds_of(events[entries[e]].event).contains(kind));
        }
    }
    assert(entries.contains(order[0])) by {
        assert(order.contains(order[0]));
    }
    lemma_best_match_is_reached(events, entries, filter.capabilities);
    assert forall|m: int| 0 <= m < order.len() implies #[trigger] capabilities_of(
        filter.capabilities,
        events[order[m]],
        agent.cards[m],
    ).len() <= agent.match_count by {
        assert(order.contains(order[m]));
        assert(entries.contains(order[m]));
        let e = choose|e: int| 0 <= e < entries.len() && entries[e] == order[m];
        assert(matches_on_card(filter.capabilities, events[entries[e]]) <= agent.match_count);
        assert(matches_on_card(filter.capabilities, events[order[m]]) <= agent.match_count);
    }
    let e = choose|e: int|
        0 <= e < entries.len() && matches_on_card(
            filter.capabilities,
            events[#[trigger] entries[e]],
        ) == best_match(events, entries, filter.capabilities);
    assert(entries.contains(entries[e]));
    assert(order.contains(entries[e]));
    let m = choose|m: int| 0 <= m < order.len() && order[m] == entries[e];
    assert(capabilities_of(filter.capabilities, events[order[m]], agent.cards[m]).len()
        == agent.match_count);
    order
}

/// Whether the tag at a position of an event names a job kind.
pub open spec fn names_kind(entry: CardEventView, t: int, kind: u16) -> bool {
    &&& entry.event.tags[t].len() >= 2
    &&& entry.event.tags[t][0] == "k"@
    &&& parsed_u16(entry.event.tags[t][1]) == Some(kind)
}

/// Without a limit, an author is returned who has a card that counts, each requested
/// capability on some such card, and the query on one of them.
pub proof fn author_who_answers_is_returned(
    filter: AgentFilterView,
    events: Seq<CardEventView>,
    i: int,
) -> (k: int)
    requires
        filter.limit is None,
        card_counts(events, i),
        forall|c: int|
            #![trigger filter.capabilities[c]]
            0 <= c < filter.capabilities.len() ==> exists|j: int| #[trigger]
                card_counts(events, j) && events[j].event.pubkey == events[i].event.pubkey
                    && capabilities_of(
                    filter.capabilities,
                    events[j],
                    events[j].card->0,
                ).contains(c),
        filter.query matches Some(query) ==> exists|j: int| #[trigger]
            card_counts(events, j) && events[j].event.pubkey == events[i].event.pubkey
                && query_on_card(query, events[j].card->0),
    ensures
        0 <= k < search_result(filter, events).len(),
        search_result(filter, events)[k].pubkey == events[i].event.pubkey,
{
    let pubkey = events[i].event.pubkey;
    let entries = listing(events, pubkey);
    lemma_listing(events, pubkey);
    listed_cards_are_those_that_count(events, i);
    if let Some(query) = filter.query {
        let j = choose|j: int| #[trigger]
            card_counts(events, j) && events[j].event.pubkey == pubkey && query_on_card(
                query,
                events[j].card->0,
            );
        listed_cards_are_those_that_count(events, j);
        assert(entries.contains(j));
        let e = choose|e: int| 0 <= e < entries.len() && entries[e] == j;
        assert(query_on_card(query, events[entries[e]].card->0));
    }
    assert forall|c: int| 0 <= c < filter.capabilities.len() implies capability_on_entries(
        events,
        entries,
        #[trigger] filter.capabilities[c],
    ) by {
        let j = choose|j: int| #[trigger]
            card_counts(events, j) && events[j].event.pubkey == pubkey && capabilities_of(
                filter.capabilities,
                events[j],
                events[j].card->0,
            ).contains(c);
        listed_cards_are_those_that_count(events, j);
        assert(entries.contains(j));
        let e = choose|e: int| 0 <= e < entries.len() && entries[e] == j;
        assert(capability_on_card(filter.capabilities[c], events[entries[e]]));
    }
    every_admitted_agent_is_returned(filter, events, i);
    choose|k: int|
        0 <= k < search_result(filter, events).len() && (#[trigger] search_result(
            filter,
            events,
        )[k]).pubkey == pubkey
}

/// The tags of a published card stand in order: the d-tag, the network's tag, one `k` tag for
/// each job kind, one `t` tag for each capability, each with one value, and no others.
pub proof fn published_tags_stand_in_order(card: CapabilityCardView, kinds: Seq<u16>)
    ensures
        card_tags(card, kinds).len() == 2 + kinds.len() + card.capabilities.len(),
        card_tags(card, kinds)[0] == seq!["d"@, d_tag_form(card.name)],
        card_tags(card, kinds)[1] == seq!["t"@, "elisym"@],
        forall|i: int|
            0 <= i < kinds.len() ==> #[trigger] card_tags(card, kinds)[2 + i] == seq![
                "k"@,
                decimal(kinds[i] as nat),
            ],
        forall|i: int|
            0 <= i < card.capabilities.len() ==> #[trigger] card_tags(
                card,
                kinds,
            )[2 + kinds.len() + i] == seq!["t"@, card.capabilities[i]],
{
}

/// A search asks the relays for cards of the network, of the author and since the time that
/// the filter gives, and with the job kind where it names one; nothing else narrows it.
pub proof fn search_asks_for_what_the_filter_gives(filter: AgentFilterView)
    ensures
        search_filter(filter).kind == 31990,
        search_filter(filter).author == filter.pubkey,
        search_filter(filter).since == filter.since,
        search_filter(filter).tags[0] == seq!["t"@, "elisym"@],
        filter.job_kind is None ==> search_filter(filter).tags.len() == 1,
        filter.job_kind matches Some(kind) ==> search_filter(filter).tags.len() == 2
            && search_filter(filter).tags[1] == seq!["k"@, decimal(kind as nat)],
{
}

/// Cards, events, agents and filters are seen with all their fields, one by one in lists.
pub proof fn search_values_show_their_fields(
    card: CapabilityCard,
    event: CardEvent,
    agent: DiscoveredAgent,
    filter: AgentFilter,
    events: Seq<CardEvent>,
    agents: Seq<DiscoveredAgent>,
)
    ensures
        card@.name == card.name@,
        card@.description == card.description@,
        card@.capabilities.len() == card.capabilities@.len(),
        forall|i: int|
            0 <= i < card.capabilities@.len() ==> #[trigger] card@.capabilities[i]
                == card.capabilities@[i]@,
        card@.payment is Some == card.payment is Some,
        card.payment matches Some(payment) ==> card@.payment == Some(payment@),
        event@.event == event.event@,
        event@.card is Some == event.card is Some,
        event.card matches Some(held) ==> event@.card == Some(held@),
        agent@.pubkey == agent.pubkey@,
        agent@.event_id == agent.event_id@,
        agent@.supported_kinds == agent.supported_kinds@,
        agent@.match_count == agent.match_count,
        agent@.cards.len() == agent.cards@.len(),
        forall|i: int|
            0 <= i < agent.cards@.len() ==> #[trigger] agent@.cards[i] == agent.cards@[i]@,
        filter@.capabilities.len() == filter.capabilities@.len(),
        forall|i: int|
            0 <= i < filter.capabilities@.len() ==> #[trigger] filter@.capabilities[i]
                == filter.capabilities@[i]@,
        filter@.job_kind == filter.job_kind,
        filter@.since == filter.since,
        filter@.limit == filter.limit,
        filter@.query is Some == filter.query is Some,
        filter.query matches Some(query) ==> filter@.query == Some(query@),
        filter@.pubkey is Some == filter.pubkey is Some,
        filter.pubkey matches Some(pubkey) ==> filter@.pubkey == Some(pubkey@),
        card_events(events).len() == events.len(),
        forall|i: int| 0 <= i < events.len() ==> #[trigger] card_events(events)[i] == events[i]@,
        agent_views(agents).len() == agents.len(),
        forall|i: int| 0 <= i < agents.len() ==> #[trigger] agent_views(agents)[i] == agents[i]@,
{
}

/// Distinct kinds are merged into nothing in their order.
proof fn lemma_distinct_kinds_stay(kinds: Seq<u16>)
    requires
        kinds.no_duplicates(),
    ensures
        with_new_kinds(Seq::empty(), kinds) == kinds,
    decreases kinds.len(),
{
    if kinds.len() > 0 {
        let rest = kinds.drop_last();
        assert forall|i: int, j: int| 0 <= i < rest.len() && 0 <= j < rest.len() && i != j implies
            rest[i] != rest[j] by {
            assert(rest[i] == kinds[i] && rest[j] == kinds[j]);
        }
        lemma_distinct_kinds_stay(rest);
        assert(!rest.contains(kinds.last()));
        assert(rest.push(kinds.last()) =~= kinds);
    } else {
        assert(kinds =~= Seq::empty());
    }
}

/// An agent whose only card was published with distinct job kinds supports these kinds, in
/// the order in which they were published.
pub proof fn published_kinds_are_supported_in_order(
    filter: AgentFilterView,
    events: Seq<CardEventView>,
    k: int,
    i: int,
    card: CapabilityCardView,
    kinds: Seq<u16>,
)
    requires
        0 <= k < search_result(filter, events).len(),
        search_result(filter, events)[k].cards.len() == 1,
        card_counts(events, i),
        events[i].event.pubkey == search_result(filter, events)[k].pubkey,
        events[i].event.tags == card_tags(card, kinds),
        kinds.no_duplicates(),
    ensures
        search_result(filter, events)[k].supported_kinds == kinds,
        search_result(filter, events)[k].cards[0] == events[i].card->0,
        search_result(filter, events)[k].event_id == events[i].event.id,
{
    let (leader, order) = lemma_agent_order(filter, events, k);
    let agent = search_result(filter, events)[k];
    let entries = listing(events, agent.pubkey);
    assert(order.contains(i));
    assert(order[0] == i);
    lemma_cards(filter, events, leader);
    lemma_ranked_members(entries, ages(events));
    assert(entries.len() == 1);
    assert(entries.contains(i));
    assert(entries[0] == i);
    published_tags_are_read_back(card, kinds);
    lemma_distinct_kinds_stay(kinds);
    assert(entries.drop_last() =~= Seq::empty());
    reveal_with_fuel(merged_kinds, 2);
    assert(merged_kinds(events, entries) == kinds);
}

/// The kinds of two rows of values are those of the first, then those of the second.
proof fn lemma_parsed_kinds_of_both(first: Seq<Seq<char>>, second: Seq<Seq<char>>)
    ensures
        parsed_kinds(first + second) == parsed_kinds(first) + parsed_kinds(second),
    decreases second.len(),
{
    if second.len() == 0 {
        assert(first + second =~= first);
        assert(parsed_kinds(first) + parsed_kinds(second) =~= parsed_kinds(first));
    } else {
        lemma_parsed_kinds_of_both(first, second.drop_last());
        assert((first + second).drop_last() =~= first + second.drop_last());
        assert(parsed_kinds(first + second) =~= parsed_kinds(first) + parsed_kinds(second));
    }
}

/// The job kinds of an event are read tag by tag: a further tag adds the kind that its value
/// stands for, where it is a `k` tag and its value is a number, and nothing otherwise.
pub proof fn kinds_are_read_tag_by_tag(event: EventView, tag: Seq<Seq<char>>)
    ensures
        ({
            let more = EventView { tags: event.tags.push(tag), ..event };
            if tag.len() >= 2 && tag[0] == "k"@ && parsed_u16(tag[1]) is Some {
                kinds_of(more) == kinds_of(event).push(parsed_u16(tag[1])->0)
            } else {
                kinds_of(more) == kinds_of(event)
            }
        }),
        event.tags.len() == 0 ==> kinds_of(event).len() == 0,
{
    let name = "k"@;
    let all = event.tags.push(tag);
    assert(all =~= event.tags + seq![tag]);
    tag_values_of_both(event.tags, seq![tag], name);
    tag_counts_under_its_name(tag, name);
    let before = tag_values(event.tags, name);
    let added = tag_values(seq![tag], name);
    lemma_parsed_kinds_of_both(before, added);
    if tag.len() >= 2 && tag[0] == name {
        assert(added == seq![tag[1]]);
        assert(added.drop_last() =~= Seq::empty());
        reveal_with_fuel(parsed_kinds, 2);
        if let Some(kind) = parsed_u16(tag[1]) {
            assert(parsed_kinds(added) =~= seq![kind]);
            assert(parsed_kinds(before) + seq![kind] =~= parsed_kinds(before).push(kind));
        } else {
            assert(parsed_kinds(before) + parsed_kinds(added) =~= parsed_kinds(before));
        }
    } else {
        assert(parsed_kinds(before) + parsed_kinds(added) =~= parsed_kinds(before));
    }
}

} // verus!
