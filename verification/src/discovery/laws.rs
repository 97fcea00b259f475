//! What holds of every search and of every published card.
use vstd::prelude::*;

use crate::discovery::matching::{capability_in_tags, d_tag_form};
use crate::discovery::search::{
    admission_rule, ages, agent_of, best_match, capability_on_card, capability_on_entries,
    is_admitted, is_carded, is_current, is_leader, is_listed, kinds_of, lemma_listing,
    lemma_listing_is_not_empty, lemma_unoutranked, limited, listing, listing_rule, matches_on_card,
    merged_kinds, outranks, parsed_kinds, query_on_entries, same_card_name, same_slot, scores,
    search_order, search_result, with_new_kinds, AgentFilterView, CardEventView,
};
use crate::discovery::service::{card_tags, search_filter};
use crate::event::{
    d_tag_of, tag_of, tag_values, tag_values_of_both, EventView, KIND_APP_HANDLER,
};
use crate::identity::CapabilityCardView;
use crate::number::{decimal, decimal_is_read_back};
use crate::ranking::{
    below, descending, lemma_ranked_agrees, lemma_ranked_members, lemma_select,
    lemma_select_agrees, ranked, ranking_descends, ranking_is_stable, select,
};

verus! {

/// The positions that a search returns, before and after the limit.
pub proof fn lemma_search_order(filter: AgentFilterView, events: Seq<CardEventView>)
    ensures
        forall|k: int|
            0 <= k < search_order(filter, events).len() ==> is_leader(
                events,
                #[trigger] search_order(filter, events)[k],
            ) && is_admitted(
                filter,
                events,
                events[search_order(filter, events)[k]].event.pubkey,
            ),
        descending(search_order(filter, events), scores(filter, events)),
        forall|a: int, b: int|
            0 <= a < b < search_order(filter, events).len() ==> (#[trigger] search_order(
                filter,
                events,
            )[a]) != #[trigger] search_order(filter, events)[b],
{
    let keep = admission_rule(filter, events);
    let chosen = select(events.len(), keep);
    let keys = scores(filter, events);
    let order = ranked(chosen, keys);
    let shown = search_order(filter, events);
    lemma_select(events.len(), keep);
    ranking_descends(chosen, keys);
    ranking_is_stable(chosen, keys);
    lemma_ranked_members(chosen, keys);
    assert forall|k: int| 0 <= k < shown.len() implies shown[k] == order[k] by {}
    assert forall|k: int| 0 <= k < shown.len() implies is_leader(events, #[trigger] shown[k])
        && is_admitted(filter, events, events[shown[k]].event.pubkey) by {
        assert(order.contains(order[k]));
        let m = choose|m: int| 0 <= m < chosen.len() && chosen[m] == order[k];
        assert(keep(chosen[m]));
    }
    assert forall|a: int, b: int| 0 <= a < b < shown.len() implies keys[#[trigger] shown[a]]
        >= keys[#[trigger] shown[b]] && shown[a] != shown[b] by {
        assert(keys[order[a]] >= keys[order[b]]);
    }
}

/// Every returned agent has all of the requested capabilities and satisfies the query.
pub proof fn returned_agents_have_all_capabilities(
    filter: AgentFilterView,
    events: Seq<CardEventView>,
    k: int,
)
    requires
        0 <= k < search_result(filter, events).len(),
    ensures
        is_admitted(filter, events, search_result(filter, events)[k].pubkey),
{
    lemma_search_order(filter, events);
    let i = search_order(filter, events)[k];
    assert(is_leader(events, i));
}

/// A search returns no agent twice.
pub proof fn returned_agents_are_distinct(
    filter: AgentFilterView,
    events: Seq<CardEventView>,
    a: int,
    b: int,
)
    requires
        0 <= a < b < search_result(filter, events).len(),
    ensures
        search_result(filter, events)[a].pubkey != search_result(filter, events)[b].pubkey,
{
    lemma_search_order(filter, events);
    let i = search_order(filter, events)[a];
    let j = search_order(filter, events)[b];
    assert(is_leader(events, i) && is_leader(events, j));
    assert(i < j || j < i);
}

proof fn lemma_best_match_bound(
    events: Seq<CardEventView>,
    entries: Seq<int>,
    capabilities: Seq<Seq<char>>,
)
    ensures
        best_match(events, entries, capabilities) <= capabilities.len(),
    decreases entries.len(),
{
    if entries.len() > 0 {
        lemma_best_match_bound(events, entries.drop_last(), capabilities);
        lemma_matches_bound(capabilities, events[entries.last()]);
    }
}

proof fn lemma_matches_bound(capabilities: Seq<Seq<char>>, entry: CardEventView)
    ensures
        matches_on_card(capabilities, entry) <= capabilities.len(),
    decreases capabilities.len(),
{
    if capabilities.len() > 0 {
        lemma_matches_bound(capabilities.drop_last(), entry);
    }
}

/// Agents come out by descending match count.
pub proof fn best_match_comes_first(
    filter: AgentFilterView,
    events: Seq<CardEventView>,
    a: int,
    b: int,
)
    requires
        0 <= a < b < search_result(filter, events).len(),
        filter.capabilities.len() <= usize::MAX,
    ensures
        search_result(filter, events)[a].match_count >= search_result(filter, events)[b].match_count,
{
    lemma_search_order(filter, events);
    let i = search_order(filter, events)[a];
    let j = search_order(filter, events)[b];
    assert(is_leader(events, i) && is_leader(events, j));
    lemma_best_match_bound(events, listing(events, events[i].event.pubkey), filter.capabilities);
    lemma_best_match_bound(events, listing(events, events[j].event.pubkey), filter.capabilities);
    assert(scores(filter, events)[i] >= scores(filter, events)[j]);
}

/// A limited search returns the front of what the same search returns without a limit: as
/// many agents as the limit allows.
pub proof fn limit_is_kept(filter: AgentFilterView, events: Seq<CardEventView>)
    ensures
        ({
            let all = search_result(AgentFilterView { limit: None, ..filter }, events);
            match filter.limit {
                Some(limit) if limit < all.len() => search_result(filter, events) == all.take(
                    limit as int,
                ),
                _ => search_result(filter, events) == all,
            }
        }),
{
    let unlimited = AgentFilterView { limit: None, ..filter };
    let a = admission_rule(filter, events);
    let b = admission_rule(unlimited, events);
    assert forall|i: int| 0 <= i < events.len() implies #[trigger] a(i) == b(i) by {}
    lemma_select_agrees(events.len(), a, b);
    assert(scores(filter, events) =~= scores(unlimited, events));
    let order = search_order(unlimited, events);
    assert(search_order(filter, events) == limited(order, filter.limit));
    assert forall|i: int| #[trigger] agent_of(filter, events, i) == agent_of(
        unlimited,
        events,
        i,
    ) by {}
    let all = search_result(unlimited, events);
    match filter.limit {
        Some(limit) if limit < all.len() => {
            assert(search_result(filter, events) =~= all.take(limit as int));
        },
        _ => {
            assert(search_result(filter, events) =~= all);
        },
    }
}

/// Without a limit, every agent that has a current card, all of the requested capabilities
/// and a card that satisfies the query is returned.
pub proof fn every_admitted_agent_is_returned(
    filter: AgentFilterView,
    events: Seq<CardEventView>,
    i: int,
)
    requires
        filter.limit is None,
        is_carded(events, i),
        is_admitted(filter, events, events[i].event.pubkey),
    ensures
        exists|k: int|
            0 <= k < search_result(filter, events).len() && (#[trigger] search_result(
                filter,
                events,
            )[k]).pubkey == events[i].event.pubkey,
    decreases i,
{
    if is_leader(events, i) {
        let keep = admission_rule(filter, events);
        let chosen = select(events.len(), keep);
        let keys = scores(filter, events);
        lemma_select(events.len(), keep);
        lemma_ranked_members(chosen, keys);
        ranking_descends(chosen, keys);
        assert(keep(i));
        assert(chosen.contains(i));
        let order = ranked(chosen, keys);
        assert(order.contains(i));
        let k = choose|k: int| 0 <= k < order.len() && order[k] == i;
        assert(search_order(filter, events) == order);
        assert(search_result(filter, events)[k].pubkey == events[i].event.pubkey);
    } else {
        let j = choose|j: int|
            0 <= j < i && #[trigger] is_carded(events, j) && events[j].event.pubkey
                == events[i].event.pubkey;
        every_admitted_agent_is_returned(filter, events, j);
    }
}

/// The cards of a returned agent are its own listed cards, each once.
pub proof fn lemma_cards(filter: AgentFilterView, events: Seq<CardEventView>, i: int)
    requires
        is_carded(events, i),
    ensures
        ({
            let entries = listing(events, events[i].event.pubkey);
            let order = ranked(entries, ages(events));
            &&& order.len() == entries.len() > 0
            &&& descending(order, ages(events))
            &&& forall|k: int|
                0 <= k < order.len() ==> is_listed(events, #[trigger] order[k])
                    && events[order[k]].event.pubkey == events[i].event.pubkey
            &&& forall|a: int, b: int|
                0 <= a < b < order.len() ==> (#[trigger] order[a]) != #[trigger] order[b]
        }),
{
    let pubkey = events[i].event.pubkey;
    let entries = listing(events, pubkey);
    let keys = ages(events);
    let order = ranked(entries, keys);
    lemma_listing(events, pubkey);
    lemma_listing_is_not_empty(events, i);
    lemma_select(events.len(), listing_rule(events, pubkey));
    ranking_descends(entries, keys);
    ranking_is_stable(entries, keys);
    lemma_ranked_members(entries, keys);
    assert forall|k: int| 0 <= k < order.len() implies is_listed(events, #[trigger] order[k])
        && events[order[k]].event.pubkey == pubkey by {
        assert(order.contains(order[k]));
        let m = choose|m: int| 0 <= m < entries.len() && entries[m] == order[k];
        assert(is_listed(events, entries[m]));
    }
    assert forall|a: int, b: int| 0 <= a < b < order.len() implies (#[trigger] order[a])
        != #[trigger] order[b] by {
        if keys[order[a]] == keys[order[b]] {
            assert(order[a] < order[b]);
        }
    }
}

/// An agent's cards have distinct names and come out newest first, and its event id is that
/// of the newest event with a card of its.
pub proof fn cards_are_distinct_and_newest_first(
    filter: AgentFilterView,
    events: Seq<CardEventView>,
    i: int,
)
    requires
        is_carded(events, i),
    ensures
        ({
            let agent = agent_of(filter, events, i);
            let order = ranked(listing(events, agent.pubkey), ages(events));
            &&& agent.cards.len() == order.len() > 0
            &&& forall|a: int, b: int|
                0 <= a < b < order.len() ==> {
                    &&& (#[trigger] agent.cards[a]).name != (#[trigger] agent.cards[b]).name
                    &&& events[order[a]].event.created_at >= events[order[b]].event.created_at
                }
            &&& agent.event_id == events[order[0]].event.id
            &&& forall|j: int|
                #[trigger] is_carded(events, j) && events[j].event.pubkey == agent.pubkey
                    ==> events[j].event.created_at <= events[order[0]].event.created_at
        }),
{
    let agent = agent_of(filter, events, i);
    let entries = listing(events, agent.pubkey);
    let order = ranked(entries, ages(events));
    lemma_cards(filter, events, i);
    assert forall|a: int, b: int| 0 <= a < b < order.len() implies {
        &&& (#[trigger] agent.cards[a]).name != (#[trigger] agent.cards[b]).name
        &&& events[order[a]].event.created_at >= events[order[b]].event.created_at
    } by {
        let p = order[a];
        let q = order[b];
        assert(is_listed(events, p) && is_listed(events, q));
        assert(ages(events)[p] >= ages(events)[q]);
        assert(p != q);
        if agent.cards[a].name == agent.cards[b].name {
            assert(same_card_name(events, p, q) && same_card_name(events, q, p));
            assert(outranks(events, p, q) || outranks(events, q, p));
        }
    }
    assert forall|j: int|
        #[trigger] is_carded(events, j) && events[j].event.pubkey
            == agent.pubkey implies events[j].event.created_at
        <= events[order[0]].event.created_at by {
        let keep = |m: int| is_carded(events, m) && same_card_name(events, m, j);
        let top = lemma_unoutranked(events, keep, events.len() as int, j);
        assert(keep(top));
        assert(keep(j));
        assert(is_listed(events, top)) by {
            assert forall|m: int|
                #[trigger] is_carded(events, m) && same_card_name(events, m, top) implies !outranks(
                events,
                m,
                top,
            ) by {
                assert(keep(m));
            }
        }
        lemma_listing(events, agent.pubkey);
        lemma_ranked_members(entries, ages(events));
        assert(entries.contains(top));
        assert(order.contains(top));
        let k = choose|k: int| 0 <= k < order.len() && order[k] == top;
        if k > 0 {
            assert(ages(events)[order[0]] >= ages(events)[order[k]]);
        }
        assert(is_listed(events, order[0]));
    }
}

proof fn lemma_with_new_kinds(known: Seq<u16>, kinds: Seq<u16>)
    requires
        known.no_duplicates(),
    ensures
        with_new_kinds(known, kinds).no_duplicates(),
        forall|kind: u16| #[trigger]
            with_new_kinds(known, kinds).contains(kind) <==> known.contains(kind)
                || kinds.contains(kind),
    decreases kinds.len(),
{
    if kinds.len() > 0 {
        let rest = kinds.drop_last();
        lemma_with_new_kinds(known, rest);
        let before = with_new_kinds(known, rest);
        let all = with_new_kinds(known, kinds);
        assert forall|kind: u16| #[trigger] all.contains(kind) <==> known.contains(kind)
            || kinds.contains(kind) by {
            assert(kinds =~= rest.push(kinds.last()));
            assert(kinds.contains(kind) <==> rest.contains(kind) || kind == kinds.last()) by {
                if rest.contains(kind) {
                    let i = choose|i: int| 0 <= i < rest.len() && rest[i] == kind;
                    assert(kinds[i] == kind);
                }
                if kind == kinds.last() {
                    assert(kinds[kinds.len() - 1] == kind);
                }
            }
            if !before.contains(kinds.last()) {
                assert(all == before.push(kinds.last()));
                if before.contains(kind) {
                    let i = choose|i: int| 0 <= i < before.len() && before[i] == kind;
                    assert(all[i] == kind);
                }
                if kind == kinds.last() {
                    assert(all[all.len() - 1] == kind);
                }
            }
        }
    } else {
        assert(kinds =~= Seq::empty());
    }
}

/// The supported kinds of an agent are those of its listed cards, each once.
pub proof fn supported_kinds_are_those_of_the_cards(
    events: Seq<CardEventView>,
    entries: Seq<int>,
)
    ensures
        merged_kinds(events, entries).no_duplicates(),
        forall|kind: u16| #[trigger]
            merged_kinds(events, entries).contains(kind) <==> exists|i: int|
                0 <= i < entries.len() && kinds_of(events[#[trigger] entries[i]].event).contains(
                    kind,
                ),
    decreases entries.len(),
{
    if entries.len() > 0 {
        let rest = entries.drop_last();
        supported_kinds_are_those_of_the_cards(events, rest);
        let before = merged_kinds(events, rest);
        let added = kinds_of(events[entries.last()].event);
        lemma_with_new_kinds(before, added);
        assert forall|kind: u16| #[trigger]
            merged_kinds(events, entries).contains(kind) <==> exists|i: int|
                0 <= i < entries.len() && kinds_of(events[#[trigger] entries[i]].event).contains(
                    kind,
                ) by {
            if before.contains(kind) {
                let i = choose|i: int|
                    0 <= i < rest.len() && kinds_of(events[#[trigger] rest[i]].event).contains(
                        kind,
                    );
                assert(entries[i] == rest[i]);
            }
            if added.contains(kind) {
                assert(kinds_of(events[entries[entries.len() - 1]].event).contains(kind));
            }
            if exists|i: int|
                0 <= i < entries.len() && kinds_of(events[#[trigger] entries[i]].event).contains(
                    kind,
                ) {
                let i = choose|i: int|
                    0 <= i < entries.len() && kinds_of(events[#[trigger] entries[i]].event).contains(
                        kind,
                    );
                if i < rest.len() {
                    assert(rest[i] == entries[i]);
                }
            }
        }
    }
}

proof fn lemma_same_measures(
    events: Seq<CardEventView>,
    more: Seq<CardEventView>,
    entries: Seq<int>,
    capabilities: Seq<Seq<char>>,
)
    requires
        events.len() <= more.len(),
        forall|i: int| 0 <= i < events.len() ==> more[i] == events[i],
        below(entries, events.len() as int),
    ensures
        merged_kinds(more, entries) == merged_kinds(events, entries),
        best_match(more, entries, capabilities) == best_match(events, entries, capabilities),
    decreases entries.len(),
{
    if entries.len() > 0 {
        let rest = entries.drop_last();
        assert(forall|i: int| 0 <= i < rest.len() ==> rest[i] == entries[i]);
        lemma_same_measures(events, more, rest, capabilities);
        assert(0 <= entries[entries.len() - 1] < events.len());
    }
}

/// Whether a further event adds nothing: an event of the same author and d-tag that is not
/// older has already arrived.
pub open spec fn is_outdated(events: Seq<CardEventView>, event: CardEventView) -> bool {
    exists|i: int|
        0 <= i < events.len() && (#[trigger] events[i]).event.pubkey == event.event.pubkey
            && d_tag_of(events[i].event.tags) == d_tag_of(event.event.tags)
            && events[i].event.created_at >= event.event.created_at
}

proof fn lemma_outdated_marks(events: Seq<CardEventView>, event: CardEventView)
    requires
        is_outdated(events, event),
    ensures
        !is_current(events.push(event), events.len() as int),
        forall|i: int|
            0 <= i < events.len() ==> (#[trigger] is_current(events.push(event), i) <==> is_current(
                events,
                i,
            )),
{
    let more = events.push(event);
    let n = events.len() as int;
    let w = choose|i: int|
        0 <= i < events.len() && (#[trigger] events[i]).event.pubkey == event.event.pubkey
            && d_tag_of(events[i].event.tags) == d_tag_of(event.event.tags)
            && events[i].event.created_at >= event.event.created_at;
    assert(more[w] == events[w]);
    assert(same_slot(more, w, n));
    assert(outranks(more, w, n));
    assert forall|i: int| 0 <= i < n implies (#[trigger] is_current(more, i) <==> is_current(
        events,
        i,
    )) by {
        assert(more[i] == events[i]);
        assert forall|j: int| 0 <= j < n implies same_slot(more, j, i) == same_slot(events, j, i)
            && outranks(more, j, i) == outranks(events, j, i) by {
            assert(more[j] == events[j]);
        }
        if is_current(more, i) {
            assert forall|j: int|
                0 <= j < events.len() && #[trigger] same_slot(events, j, i) implies !outranks(
                events,
                j,
                i,
            ) by {
                assert(same_slot(more, j, i));
            }
        }
        if is_current(events, i) {
            assert forall|j: int|
                0 <= j < more.len() && #[trigger] same_slot(more, j, i) implies !outranks(
                more,
                j,
                i,
            ) by {
                if j == n {
                    assert(same_slot(events, w, i));
                } else {
                    assert(same_slot(events, j, i));
                }
            }
        }
    }
}

proof fn lemma_outdated_lists(events: Seq<CardEventView>, event: CardEventView)
    requires
        is_outdated(events, event),
    ensures
        !is_carded(events.push(event), events.len() as int),
        forall|i: int|
            0 <= i < events.len() ==> (#[trigger] is_carded(events.push(event), i) <==> is_carded(
                events,
                i,
            )),
        forall|i: int|
            0 <= i < events.len() ==> (#[trigger] is_listed(events.push(event), i) <==> is_listed(
                events,
                i,
            )),
        forall|i: int|
            0 <= i < events.len() ==> (#[trigger] is_leader(events.push(event), i) <==> is_leader(
                events,
                i,
            )),
        forall|pubkey: Seq<char>| #[trigger]
            listing(events.push(event), pubkey) == listing(events, pubkey),
{
    let more = events.push(event);
    let n = events.len() as int;
    lemma_outdated_marks(events, event);
    assert forall|i: int| 0 <= i < n implies (#[trigger] is_carded(more, i) <==> is_carded(
        events,
        i,
    )) by {
        assert(more[i] == events[i]);
        assert(is_current(more, i) <==> is_current(events, i));
    }
    assert forall|i: int| 0 <= i < n implies (#[trigger] is_listed(more, i) <==> is_listed(
        events,
        i,
    )) by {
        assert(more[i] == events[i]);
        assert(is_carded(more, i) <==> is_carded(events, i));
        if is_listed(more, i) {
            assert forall|j: int|
                #[trigger] is_carded(events, j) && same_card_name(events, j, i) implies !outranks(
                events,
                j,
                i,
            ) by {
                assert(more[j] == events[j]);
                assert(is_carded(more, j) <==> is_carded(events, j));
                assert(same_card_name(more, j, i));
            }
        }
        if is_listed(events, i) {
            assert forall|j: int|
                #[trigger] is_carded(more, j) && same_card_name(more, j, i) implies !outranks(
                more,
                j,
                i,
            ) by {
                assert(j != n);
                assert(more[j] == events[j]);
                assert(is_carded(more, j) <==> is_carded(events, j));
                assert(same_card_name(events, j, i));
            }
        }
    }
    assert forall|i: int| 0 <= i < n implies (#[trigger] is_leader(more, i) <==> is_leader(
        events,
        i,
    )) by {
        assert(more[i] == events[i]);
        assert(is_carded(more, i) <==> is_carded(events, i));
        assert forall|j: int| 0 <= j < i implies (#[trigger] is_carded(more, j) <==> is_carded(
            events,
            j,
        )) && more[j] == events[j] by {}
        if is_leader(more, i) {
            assert forall|j: int| 0 <= j < i && #[trigger] is_carded(events, j) implies events[j].event.pubkey
                != events[i].event.pubkey by {
                assert(is_carded(more, j));
            }
        }
        if is_leader(events, i) {
            assert forall|j: int| 0 <= j < i && #[trigger] is_carded(more, j) implies more[j].event.pubkey
                != more[i].event.pubkey by {
                assert(is_carded(events, j));
            }
        }
    }
    assert forall|pubkey: Seq<char>| #[trigger]
        listing(more, pubkey) == listing(events, pubkey) by {
        let a = listing_rule(more, pubkey);
        let b = listing_rule(events, pubkey);
        assert forall|i: int| 0 <= i < n implies #[trigger] a(i) == b(i) by {
            assert(more[i] == events[i]);
            assert(is_listed(more, i) <==> is_listed(events, i));
        }
        lemma_select_agrees(n as nat, a, b);
        assert(!a(n));
        assert(select(more.len(), a) == select(n as nat, a));
    }
}

/// The same card may arrive from multiple relays: an event that is no newer than one already
/// fetched for the same author and d-tag changes nothing about the result.
pub proof fn outdated_events_change_nothing(
    filter: AgentFilterView,
    events: Seq<CardEventView>,
    event: CardEventView,
)
    requires
        is_outdated(events, event),
    ensures
        search_result(filter, events.push(event)) == search_result(filter, events),
{
    let more = events.push(event);
    let n = events.len() as int;
    lemma_outdated_lists(events, event);
    assert forall|pubkey: Seq<char>| #[trigger]
        is_admitted(filter, more, pubkey) == is_admitted(filter, events, pubkey) by {
        lemma_same_admission(filter, events, more, pubkey);
    }
    let a = admission_rule(filter, more);
    let b = admission_rule(filter, events);
    assert forall|i: int| 0 <= i < n implies #[trigger] a(i) == b(i) by {
        assert(more[i] == events[i]);
        assert(is_leader(more, i) <==> is_leader(events, i));
        assert(is_admitted(filter, more, more[i].event.pubkey) == is_admitted(
            filter,
            events,
            events[i].event.pubkey,
        ));
    }
    lemma_select_agrees(n as nat, a, b);
    assert(!is_leader(more, n));
    assert(!a(n));
    let chosen = select(n as nat, b);
    assert(select(more.len(), a) == chosen);
    lemma_select(n as nat, b);
    assert forall|i: int| 0 <= i < n implies #[trigger] scores(filter, more)[i] == scores(
        filter,
        events,
    )[i] by {
        let pubkey = events[i].event.pubkey;
        assert(more[i] == events[i]);
        lemma_listing(events, pubkey);
        lemma_same_measures(events, more, listing(events, pubkey), filter.capabilities);
        assert(listing(more, pubkey) == listing(events, pubkey));
    }
    assert forall|k: int| 0 <= k < chosen.len() implies scores(filter, more)[#[trigger] chosen[k]]
        == scores(filter, events)[chosen[k]] by {
        assert(0 <= chosen[k] < n);
    }
    lemma_ranked_agrees(chosen, scores(filter, more), scores(filter, events));
    assert(search_order(filter, more) == search_order(filter, events));
    let order = search_order(filter, events);
    lemma_search_order(filter, events);
    assert forall|k: int| 0 <= k < order.len() implies agent_of(filter, more, #[trigger] order[k])
        == agent_of(filter, events, order[k]) by {
        let i = order[k];
        assert(is_leader(events, i));
        lemma_same_agent(filter, events, more, i);
    }
    assert(search_result(filter, more) =~= search_result(filter, events));
}

proof fn lemma_same_admission(
    filter: AgentFilterView,
    events: Seq<CardEventView>,
    more: Seq<CardEventView>,
    pubkey: Seq<char>,
)
    requires
        events.len() <= more.len(),
        forall|i: int| 0 <= i < events.len() ==> more[i] == events[i],
        listing(more, pubkey) == listing(events, pubkey),
    ensures
        is_admitted(filter, more, pubkey) == is_admitted(filter, events, pubkey),
{
    let entries = listing(events, pubkey);
    lemma_listing(events, pubkey);
    assert(forall|i: int|
        0 <= i < entries.len() ==> more[#[trigger] entries[i]] == events[entries[i]]);
    assert(query_on_entries(more, entries, filter.query) == query_on_entries(
        events,
        entries,
        filter.query,
    ));
    assert forall|capability: Seq<char>| #[trigger]
        capability_on_entries(more, entries, capability) == capability_on_entries(
            events,
            entries,
            capability,
        ) by {}
}

proof fn lemma_same_agent(
    filter: AgentFilterView,
    events: Seq<CardEventView>,
    more: Seq<CardEventView>,
    i: int,
)
    requires
        is_carded(events, i),
        events.len() <= more.len(),
        forall|j: int| 0 <= j < events.len() ==> more[j] == events[j],
        listing(more, events[i].event.pubkey) == listing(events, events[i].event.pubkey),
    ensures
        agent_of(filter, more, i) == agent_of(filter, events, i),
{
    let pubkey = events[i].event.pubkey;
    let entries = listing(events, pubkey);
    lemma_listing(events, pubkey);
    lemma_same_measures(events, more, entries, filter.capabilities);
    assert forall|k: int| 0 <= k < entries.len() implies ages(more)[#[trigger] entries[k]] == ages(
        events,
    )[entries[k]] by {
        assert(0 <= entries[k] < events.len());
    }
    lemma_ranked_agrees(entries, ages(more), ages(events));
    lemma_cards(filter, events, i);
    let order = ranked(entries, ages(events));
    assert forall|k: int| 0 <= k < order.len() implies more[#[trigger] order[k]]
        == events[order[k]] by {
        assert(is_listed(events, order[k]));
    }
    assert(agent_of(filter, more, i).cards =~= agent_of(filter, events, i).cards);
    assert(more[order[0]] == events[order[0]]);
}

/// The tags of a published card, read back: its d-tag, the network's tag followed by its
/// capabilities, and its job kinds.
pub proof fn published_tags_are_read_back(card: CapabilityCardView, kinds: Seq<u16>)
    ensures
        d_tag_of(card_tags(card, kinds)) == d_tag_form(card.name),
        tag_values(card_tags(card, kinds), "t"@) == seq!["elisym"@] + card.capabilities,
        parsed_kinds(tag_values(card_tags(card, kinds), "k"@)) == kinds,
        tag_values(card_tags(card, kinds), "k"@) == kinds.map_values(
            |kind: u16| decimal(kind as nat),
        ),
{
    reveal_strlit("d");
    reveal_strlit("t");
    reveal_strlit("k");
    assert("d"@[0] == 'd' && "t"@[0] == 't' && "k"@[0] == 'k');
    let head = seq![tag_of("d"@, d_tag_form(card.name)), tag_of("t"@, "elisym"@)];
    let numbers = kinds.map_values(|kind: u16| decimal(kind as nat));
    let middle = kinds.map_values(|kind: u16| tag_of("k"@, decimal(kind as nat)));
    let tail = card.capabilities.map_values(|capability: Seq<char>| tag_of("t"@, capability));
    assert(middle =~= numbers.map_values(|value: Seq<char>| tag_of("k"@, value)));
    lemma_uniform_tags("k"@, numbers, "t"@);
    lemma_uniform_tags("t"@, card.capabilities, "k"@);
    lemma_head_values(d_tag_form(card.name));
    assert forall|name: Seq<char>| #[trigger]
        tag_values(card_tags(card, kinds), name) == tag_values(head, name) + tag_values(
            middle,
            name,
        ) + tag_values(tail, name) by {
        tag_values_of_both(head + middle, tail, name);
        tag_values_of_both(head, middle, name);
    }
    assert(tag_values(card_tags(card, kinds), "d"@)[0] == d_tag_form(card.name));
    assert(tag_values(card_tags(card, kinds), "t"@) =~= seq!["elisym"@] + card.capabilities);
    assert(tag_values(card_tags(card, kinds), "k"@) =~= numbers);
    lemma_kinds_read_back(kinds);
}

proof fn lemma_head_values(slug: Seq<char>)
    ensures
        ({
            let head = seq![tag_of("d"@, slug), tag_of("t"@, "elisym"@)];
            &&& tag_values(head, "d"@) == seq![slug]
            &&& tag_values(head, "t"@) == seq!["elisym"@]
            &&& tag_values(head, "k"@) == Seq::<Seq<char>>::empty()
        }),
{
    reveal_strlit("d");
    reveal_strlit("t");
    reveal_strlit("k");
    assert("d"@[0] == 'd' && "t"@[0] == 't' && "k"@[0] == 'k');
    let first = seq![tag_of("d"@, slug)];
    let head = seq![tag_of("d"@, slug), tag_of("t"@, "elisym"@)];
    assert(head.drop_last() =~= first);
    assert(first.drop_last() =~= Seq::empty());
    reveal_with_fuel(tag_values, 3);
    assert(tag_values(head, "d"@) =~= seq![slug]);
    assert(tag_values(head, "t"@) =~= seq!["elisym"@]);
    assert(tag_values(head, "k"@) =~= Seq::<Seq<char>>::empty());
}

proof fn lemma_uniform_tags(name: Seq<char>, values: Seq<Seq<char>>, other: Seq<char>)
    requires
        other != name,
    ensures
        tag_values(values.map_values(|value: Seq<char>| tag_of(name, value)), name) == values,
        tag_values(values.map_values(|value: Seq<char>| tag_of(name, value)), other) == Seq::<
            Seq<char>,
        >::empty(),
    decreases values.len(),
{
    let tags = values.map_values(|value: Seq<char>| tag_of(name, value));
    if values.len() > 0 {
        let rest = values.drop_last();
        lemma_uniform_tags(name, rest, other);
        assert(tags.drop_last() =~= rest.map_values(|value: Seq<char>| tag_of(name, value)));
        assert(tags.last() == tag_of(name, values.last()));
        assert(rest.push(values.last()) =~= values);
    } else {
        assert(values =~= Seq::empty());
    }
}

proof fn lemma_kinds_read_back(kinds: Seq<u16>)
    ensures
        parsed_kinds(kinds.map_values(|kind: u16| decimal(kind as nat))) == kinds,
    decreases kinds.len(),
{
    let written = kinds.map_values(|kind: u16| decimal(kind as nat));
    if kinds.len() > 0 {
        let rest = kinds.drop_last();
        lemma_kinds_read_back(rest);
        assert(written.drop_last() =~= rest.map_values(|kind: u16| decimal(kind as nat)));
        decimal_is_read_back(kinds.last());
        assert(rest.push(kinds.last()) =~= kinds);
    } else {
        assert(kinds =~= Seq::empty());
    }
}

/// A published card is among the events that a search asks the relays for, where the search
/// is for one of its job kinds, for its author, and not for something younger.
pub proof fn published_card_is_asked_for(
    card: CapabilityCardView,
    kinds: Seq<u16>,
    event: EventView,
    filter: AgentFilterView,
)
    requires
        event.kind == KIND_APP_HANDLER,
        event.tags == card_tags(card, kinds),
        filter.job_kind matches Some(kind) ==> kinds.contains(kind),
        filter.pubkey matches Some(pubkey) ==> event.pubkey == pubkey,
        filter.since matches Some(since) ==> since <= event.created_at,
    ensures
        search_filter(filter).asks_for(event),
{
    published_tags_are_read_back(card, kinds);
    let asked = search_filter(filter).tags;
    assert(tag_values(event.tags, "t"@)[0] == "elisym"@);
    assert forall|i: int| 0 <= i < asked.len() implies tag_values(
        event.tags,
        (#[trigger] asked[i])[0],
    ).contains(asked[i][1]) by {
        if i == 0 {
            assert(asked[0] == tag_of("t"@, "elisym"@));
        } else {
            let kind = filter.job_kind->0;
            let at = choose|at: int| 0 <= at < kinds.len() && kinds[at] == kind;
            assert(tag_values(event.tags, "k"@)[at] == decimal(kind as nat));
        }
    }
}

/// An agent that published a card with all of the requested capabilities is found by a search
/// without query and limit, as long as the card is its author's newest of that name.
pub proof fn published_agent_is_found(
    card: CapabilityCardView,
    kinds: Seq<u16>,
    filter: AgentFilterView,
    events: Seq<CardEventView>,
    i: int,
)
    requires
        is_listed(events, i),
        events[i].event.tags == card_tags(card, kinds),
        forall|k: int|
            0 <= k < filter.capabilities.len() ==> card.capabilities.contains(
                #[trigger] filter.capabilities[k],
            ),
        filter.query is None,
        filter.limit is None,
    ensures
        exists|k: int|
            0 <= k < search_result(filter, events).len() && (#[trigger] search_result(
                filter,
                events,
            )[k]).pubkey == events[i].event.pubkey,
{
    let pubkey = events[i].event.pubkey;
    let entries = listing(events, pubkey);
    published_tags_are_read_back(card, kinds);
    lemma_listing(events, pubkey);
    assert(entries.contains(i));
    let at = choose|at: int| 0 <= at < entries.len() && entries[at] == i;
    let tags = tag_values(events[i].event.tags, "t"@);
    assert forall|k: int| 0 <= k < filter.capabilities.len() implies capability_on_entries(
        events,
        entries,
        #[trigger] filter.capabilities[k],
    ) by {
        let capability = filter.capabilities[k];
        let m = choose|m: int| 0 <= m < card.capabilities.len() && card.capabilities[m] == capability;
        assert(tags[m + 1] == capability);
        assert(tags.contains(capability));
        assert(capability_in_tags(capability, tags));
        assert(capability_on_card(capability, events[entries[at]]));
    }
    every_admitted_agent_is_returned(filter, events, i);
}

} // verus!
