//! Nostr events and their tags as plain values.
use vstd::prelude::*;

use crate::text::{same_text, text_lists, texts};

verus! {

/// Event kind of a capability card (NIP-89 application handler).
pub const KIND_APP_HANDLER: u16 = 31990;

/// Event kind of an ephemeral ping.
pub const KIND_PING: u16 = 20200;

/// Event kind of an ephemeral pong.
pub const KIND_PONG: u16 = 20201;

/// Event kind of a gift wrap (NIP-59).
pub const KIND_GIFT_WRAP: u16 = 1059;

/// An event as it arrived from a relay. Keys and ids are written in hexadecimal.
#[derive(Debug)]
pub struct Event {
    pub id: String,
    pub pubkey: String,
    pub created_at: u64,
    pub kind: u16,
    pub tags: Vec<Vec<String>>,
    pub content: String,
}

/// The contents of an [`Event`].
pub struct EventView {
    pub id: Seq<char>,
    pub pubkey: Seq<char>,
    pub created_at: u64,
    pub kind: u16,
    pub tags: Seq<Seq<Seq<char>>>,
    pub content: Seq<char>,
}

impl View for Event {
    type V = EventView;

    open spec fn view(&self) -> EventView {
        EventView {
            id: self.id@,
            pubkey: self.pubkey@,
            created_at: self.created_at,
            kind: self.kind,
            tags: text_lists(self.tags@),
            content: self.content@,
        }
    }
}

/// An event that is still to be signed and sent.
#[derive(Debug)]
pub struct EventDraft {
    pub kind: u16,
    pub content: String,
    pub tags: Vec<Vec<String>>,
}

/// The contents of an [`EventDraft`].
pub struct EventDraftView {
    pub kind: u16,
    pub content: Seq<char>,
    pub tags: Seq<Seq<Seq<char>>>,
}

impl View for EventDraft {
    type V = EventDraftView;

    open spec fn view(&self) -> EventDraftView {
        EventDraftView { kind: self.kind, content: self.content@, tags: text_lists(self.tags@) }
    }
}

/// The value of a tag whose name is `name`.
pub open spec fn tag_value(tag: Seq<Seq<char>>, name: Seq<char>) -> Option<Seq<char>> {
    if tag.len() >= 2 && tag[0] == name {
        Some(tag[1])
    } else {
        None
    }
}

/// The values of all tags with the name `name`, in order.
pub open spec fn tag_values(tags: Seq<Seq<Seq<char>>>, name: Seq<char>) -> Seq<Seq<char>>
    decreases tags.len(),
{
    if tags.len() == 0 {
        Seq::empty()
    } else {
        let before = tag_values(tags.drop_last(), name);
        match tag_value(tags.last(), name) {
            Some(value) => before.push(value),
            None => before,
        }
    }
}

/// The d-tag of an event: the value of its first `d` tag, or the empty text.
pub open spec fn d_tag_of(tags: Seq<Seq<Seq<char>>>) -> Seq<char> {
    let values = tag_values(tags, "d"@);
    if values.len() > 0 {
        values[0]
    } else {
        Seq::empty()
    }
}

/// A tag with one value.
pub open spec fn tag_of(name: Seq<char>, value: Seq<char>) -> Seq<Seq<char>> {
    seq![name, value]
}

/// The values of all tags with the name `name`, in order.
pub fn values_of(tags: &Vec<Vec<String>>, name: &str) -> (values: Vec<String>)
    ensures
        texts(values@) == tag_values(text_lists(tags@), name@),
{
    let mut values: Vec<String> = Vec::new();
    let ghost all = text_lists(tags@);
    for i in 0..tags.len()
        invariant
            all == text_lists(tags@),
            texts(values@) == tag_values(all.take(i as int), name@),
    {
        let ghost before = values@;
        assert(all.take(i + 1).drop_last() =~= all.take(i as int));
        assert(all.take(i + 1).last() == texts(tags@[i as int]@));
        let tag = &tags[i];
        if tag.len() >= 2 && same_text(tag[0].as_str(), name) {
            values.push(tag[1].clone());
            assert(texts(values@) =~= texts(before).push(tag@[1]@));
        }
    }
    assert(all.take(tags@.len() as int) =~= all);
    values
}

/// The d-tag of an event: the value of its first `d` tag, or the empty text.
pub fn d_tag(tags: &Vec<Vec<String>>) -> (tag: String)
    ensures
        tag@ == d_tag_of(text_lists(tags@)),
{
    let values = values_of(tags, "d");
    if values.len() > 0 {
        assert(texts(values@)[0] == values@[0]@);
        values[0].clone()
    } else {
        String::new()
    }
}

/// A tag with one value.
pub fn make_tag(name: &str, value: &str) -> (tag: Vec<String>)
    ensures
        texts(tag@) == tag_of(name@, value@),
{
    let mut tag: Vec<String> = Vec::new();
    tag.push(name.to_owned());
    tag.push(value.to_owned());
    assert(texts(tag@) =~= tag_of(name@, value@));
    tag
}

/// The values of a row of tags followed by another.
pub proof fn tag_values_of_both(
    first: Seq<Seq<Seq<char>>>,
    second: Seq<Seq<Seq<char>>>,
    name: Seq<char>,
)
    ensures
        tag_values(first + second, name) == tag_values(first, name) + tag_values(second, name),
    decreases second.len(),
{
    if second.len() == 0 {
        assert(first + second =~= first);
    } else {
        tag_values_of_both(first, second.drop_last(), name);
        assert((first + second).drop_last() =~= first + second.drop_last());
    }
}

/// What a relay is asked for.
#[derive(Debug)]
pub struct RelayFilter {
    pub kind: u16,
    pub author: Option<String>,
    pub since: Option<u64>,
    /// Each with a one-letter name and the value that an event must carry under it.
    pub tags: Vec<Vec<String>>,
}

/// The contents of a [`RelayFilter`].
pub struct RelayFilterView {
    pub kind: u16,
    pub author: Option<Seq<char>>,
    pub since: Option<u64>,
    pub tags: Seq<Seq<Seq<char>>>,
}

impl View for RelayFilter {
    type V = RelayFilterView;

    open spec fn view(&self) -> RelayFilterView {
        RelayFilterView {
            kind: self.kind,
            author: match self.author {
                Some(author) => Some(author@),
                None => None,
            },
            since: self.since,
            tags: text_lists(self.tags@),
        }
    }
}

impl RelayFilterView {
    /// Whether an event is one of those that the filter asks for (NIP-01).
    pub open spec fn asks_for(self, event: EventView) -> bool {
        &&& event.kind == self.kind
        &&& self.author matches Some(author) ==> event.pubkey == author
        &&& self.since matches Some(since) ==> event.created_at >= since
        &&& forall|i: int|
            0 <= i < self.tags.len() ==> tag_values(event.tags, (#[trigger] self.tags[i])[0]).contains(
                self.tags[i][1],
            )
    }
}

/// An event's contents are its fields.
pub proof fn event_shows_its_fields(event: Event)
    ensures
        event@.id == event.id@,
        event@.pubkey == event.pubkey@,
        event@.created_at == event.created_at,
        event@.kind == event.kind,
        event@.content == event.content@,
        event@.tags.len() == event.tags@.len(),
        forall|i: int, j: int|
            0 <= i < event.tags@.len() && 0 <= j < event.tags@[i]@.len() ==> event@.tags[i].len()
                == event.tags@[i]@.len() && #[trigger] event@.tags[i][j] == event.tags@[i]@[j]@,
{
}

/// A draft's contents are its fields.
pub proof fn draft_shows_its_fields(draft: EventDraft)
    ensures
        draft@.kind == draft.kind,
        draft@.content == draft.content@,
        draft@.tags.len() == draft.tags@.len(),
        forall|i: int, j: int|
            0 <= i < draft.tags@.len() && 0 <= j < draft.tags@[i]@.len() ==> draft@.tags[i].len()
                == draft.tags@[i]@.len() && #[trigger] draft@.tags[i][j] == draft.tags@[i]@[j]@,
{
}

/// A relay filter's contents are its fields.
pub proof fn filter_shows_its_fields(filter: RelayFilter)
    ensures
        filter@.kind == filter.kind,
        filter@.since == filter.since,
        filter@.author is Some == filter.author is Some,
        filter.author matches Some(author) ==> filter@.author == Some(author@),
        filter@.tags.len() == filter.tags@.len(),
        forall|i: int, j: int|
            0 <= i < filter.tags@.len() && 0 <= j < filter.tags@[i]@.len() ==> filter@.tags[i].len()
                == filter.tags@[i]@.len() && #[trigger] filter@.tags[i][j] == filter.tags@[i]@[j]@,
{
}

/// A tag counts under its first entry, with its second entry as the value; what follows is
/// not looked at, and a tag of one entry does not count.
pub proof fn tag_counts_under_its_name(tag: Seq<Seq<char>>, name: Seq<char>)
    ensures
        tag.len() < 2 ==> tag_values(seq![tag], name).len() == 0,
        tag.len() >= 2 && tag[0] != name ==> tag_values(seq![tag], name).len() == 0,
        tag.len() >= 2 ==> tag_values(seq![tag], tag[0]) == seq![tag[1]],
{
    assert(seq![tag].drop_last() =~= Seq::empty());
    reveal_with_fuel(tag_values, 2);
    if tag.len() >= 2 {
        assert(tag_values(seq![tag], tag[0]) =~= seq![tag[1]]);
    }
}

/// A value stands under a name exactly where a tag with that name holds it.
pub proof fn tag_value_is_held_by_a_tag(
    tags: Seq<Seq<Seq<char>>>,
    name: Seq<char>,
    value: Seq<char>,
)
    ensures
        tag_values(tags, name).contains(value) <==> exists|i: int|
            0 <= i < tags.len() && (#[trigger] tags[i]).len() >= 2 && tags[i][0] == name
                && tags[i][1] == value,
    decreases tags.len(),
{
    if tags.len() > 0 {
        let front = tags.drop_last();
        tag_value_is_held_by_a_tag(front, name, value);
        let before = tag_values(front, name);
        let all = tag_values(tags, name);
        let last = tags[tags.len() - 1];
        if before.contains(value) {
            let i = choose|i: int|
                0 <= i < front.len() && (#[trigger] front[i]).len() >= 2 && front[i][0] == name
                    && front[i][1] == value;
            assert(tags[i] == front[i]);
            let k = choose|k: int| 0 <= k < before.len() && before[k] == value;
            assert(all[k] == value);
        }
        if last.len() >= 2 && last[0] == name && last[1] == value {
            assert(all[all.len() - 1] == value);
        }
        if all.contains(value) && !before.contains(value) {
            let k = choose|k: int| 0 <= k < all.len() && all[k] == value;
            if k < before.len() {
                assert(before[k] == value);
            }
        }
        if exists|i: int|
            0 <= i < tags.len() && (#[trigger] tags[i]).len() >= 2 && tags[i][0] == name
                && tags[i][1] == value {
            let i = choose|i: int|
                0 <= i < tags.len() && (#[trigger] tags[i]).len() >= 2 && tags[i][0] == name
                    && tags[i][1] == value;
            if i < front.len() {
                assert(front[i] == tags[i]);
            }
        }
    }
}

/// The first `d` tag decides, whatever tags follow it.
pub proof fn first_d_tag_decides(
    before: Seq<Seq<Seq<char>>>,
    value: Seq<char>,
    after: Seq<Seq<Seq<char>>>,
)
    requires
        forall|i: int|
            0 <= i < before.len() ==> (#[trigger] before[i]).len() < 2 || before[i][0] != "d"@,
    ensures
        d_tag_of(before) == Seq::<char>::empty(),
        d_tag_of(before.push(seq!["d"@, value]) + after) == value,
{
    let name = "d"@;
    if tag_values(before, name).len() > 0 {
        let value = tag_values(before, name)[0];
        tag_value_is_held_by_a_tag(before, name, value);
        assert(tag_values(before, name).contains(value));
    }
    let tag = seq![name, value];
    let front = before.push(tag);
    assert(front =~= before + seq![tag]);
    tag_values_of_both(before, seq![tag], name);
    tag_counts_under_its_name(tag, name);
    tag_values_of_both(front, after, name);
    assert(tag_values(front, name)[0] == value);
}

} // verus!
