//! How a requested capability or a free-text query is matched against a card.
use vstd::prelude::*;

use crate::identity::{CapabilityCard, CapabilityCardView};
use crate::text::{
    ascii_lowercase, ascii_lowercase_of, begins_with, contains_text, has_substring, is_ascii_text,
    is_unbroken, is_white_space, is_word_at, join, joined, joined_of_both,
    lemma_joined_is_unbroken, lemma_words_are_unbroken, lemma_words_of_unbroken, list_contains,
    lowercase, lowercase_of, same_text, split_words, stands_at, texts, words,
    words_are_the_longest_runs, words_of_both_sides, Breaks,
};

verus! {

/// Minimum token length, in characters, for fuzzy prefix matching (both direct and reverse).
/// Tokens shorter than this only match via exact equality.
pub const MIN_FUZZY_PREFIX_LEN: usize = 4;

/// The d-tag form of a capability name: the lower case words, with hyphens between them.
pub open spec fn d_tag_form(name: Seq<char>) -> Seq<char> {
    joined(words(lowercase_of(name), Breaks::Whitespace), "-"@)
}

/// The d-tag form of a name whose characters lie in the ASCII range.
pub open spec fn ascii_d_tag_form(name: Seq<char>) -> Seq<char> {
    joined(words(ascii_lowercase_of(name), Breaks::Whitespace), "-"@)
}

/// Whether two tokens are equal, or the shorter one has at least
/// [`MIN_FUZZY_PREFIX_LEN`] characters and begins the other.
pub open spec fn tokens_fuzzy_match(a: Seq<char>, b: Seq<char>) -> bool {
    ||| a == b
    ||| a.len() >= MIN_FUZZY_PREFIX_LEN && a.is_prefix_of(b)
    ||| b.len() >= MIN_FUZZY_PREFIX_LEN && b.is_prefix_of(a)
}

/// Whether `word` fuzzy-matches one of `others`, regardless of case.
pub open spec fn word_among(word: Seq<char>, others: Seq<Seq<char>>) -> bool {
    exists|i: int|
        0 <= i < others.len() && tokens_fuzzy_match(
            lowercase_of(word),
            lowercase_of(#[trigger] others[i]),
        )
}

/// Whether `word` fuzzy-matches a token of one of the tags.
pub open spec fn word_in_tags(word: Seq<char>, tags: Seq<Seq<char>>) -> bool {
    exists|i: int|
        0 <= i < tags.len() && word_among(word, words(#[trigger] tags[i], Breaks::Separators))
}

/// Whether a requested capability matches an event's tags: it is one of them, or it has a
/// token and each of its tokens fuzzy-matches a token of some tag.
pub open spec fn capability_in_tags(capability: Seq<char>, tags: Seq<Seq<char>>) -> bool {
    let tokens = words(capability, Breaks::Separators);
    ||| tags.contains(capability)
    ||| tokens.len() > 0 && (forall|i: int|
        0 <= i < tokens.len() ==> word_in_tags(#[trigger] tokens[i], tags))
}

/// Whether a requested capability matches a free text: it has a token, and each of its
/// tokens fuzzy-matches a token of the text.
pub open spec fn capability_in_text(capability: Seq<char>, text: Seq<char>) -> bool {
    let tokens = words(capability, Breaks::Separators);
    &&& tokens.len() > 0
    &&& forall|i: int|
        0 <= i < tokens.len() ==> word_among(
            #[trigger] tokens[i],
            words(text, Breaks::Separators),
        )
}

/// Whether a free-text query stands, regardless of case, in the name, the description or
/// a capability of the card.
pub open spec fn query_on_card(query: Seq<char>, card: CapabilityCardView) -> bool {
    let wanted = lowercase_of(query);
    ||| has_substring(lowercase_of(card.name), wanted)
    ||| has_substring(lowercase_of(card.description), wanted)
    ||| exists|i: int|
        0 <= i < card.capabilities.len() && has_substring(
            lowercase_of(#[trigger] card.capabilities[i]),
            wanted,
        )
}

/// Convert a capability name to its Nostr d-tag form (lowercase, spaces to hyphens).
pub fn to_d_tag(name: &str) -> (tag: String)
    ensures
        tag@ == d_tag_form(name@),
        is_ascii_text(name@) ==> tag@ == ascii_d_tag_form(name@),
{
    let lower = lowercase(name);
    let parts = split_words(lower.as_str(), Breaks::Whitespace);
    join(&parts, "-")
}

/// Check if two lowercase tokens fuzzy-match: exact equality, or one is a prefix
/// of the other (both tokens must be at least [`MIN_FUZZY_PREFIX_LEN`] chars).
pub fn tokens_match(a: &str, b: &str) -> (yes: bool)
    ensures
        yes == tokens_fuzzy_match(a@, b@),
{
    same_text(a, b) || (a.unicode_len() >= MIN_FUZZY_PREFIX_LEN && begins_with(b, a)) || (
    b.unicode_len() >= MIN_FUZZY_PREFIX_LEN && begins_with(a, b))
}

/// Whether `word` fuzzy-matches one of `others`, regardless of case.
fn matches_some(word: &str, others: &Vec<String>) -> (yes: bool)
    ensures
        yes == word_among(word@, texts(others@)),
{
    let word_lower = lowercase(word);
    for i in 0..others.len()
        invariant
            word_lower@ == lowercase_of(word@),
            forall|j: int|
                0 <= j < i ==> !tokens_fuzzy_match(
                    lowercase_of(word@),
                    lowercase_of(#[trigger] texts(others@)[j]),
                ),
    {
        let other_lower = lowercase(others[i].as_str());
        assert(texts(others@)[i as int] == others@[i as int]@);
        if tokens_match(word_lower.as_str(), other_lower.as_str()) {
            return true;
        }
    }
    false
}

/// Whether `word` fuzzy-matches a token of one of the tags.
fn matches_some_tag(word: &str, tags: &Vec<String>) -> (yes: bool)
    ensures
        yes == word_in_tags(word@, texts(tags@)),
{
    for i in 0..tags.len()
        invariant
            forall|j: int|
                0 <= j < i ==> !word_among(
                    word@,
                    words(#[trigger] texts(tags@)[j], Breaks::Separators),
                ),
    {
        let tokens = split_words(tags[i].as_str(), Breaks::Separators);
        assert(texts(tags@)[i as int] == tags@[i as int]@);
        if matches_some(word, &tokens) {
            return true;
        }
    }
    false
}

/// Check if a single query capability matches any of the event's tags.
///
/// Matching is fuzzy: both the query and tags are split on delimiters (`-`, `_`, ` `)
/// into tokens. A query token matches a tag token if they are equal or one is a prefix
/// of the other (min [`MIN_FUZZY_PREFIX_LEN`] chars).
pub fn matches_capability(query_cap: &str, event_tags: &Vec<String>) -> (yes: bool)
    ensures
        yes == capability_in_tags(query_cap@, texts(event_tags@)),
{
    if list_contains(event_tags, query_cap) {
        return true;
    }
    let tokens = split_words(query_cap, Breaks::Separators);
    if tokens.len() == 0 {
        return false;
    }
    for i in 0..tokens.len()
        invariant
            tokens.len() > 0,
            texts(tokens@) == words(query_cap@, Breaks::Separators),
            !texts(event_tags@).contains(query_cap@),
            forall|j: int|
                0 <= j < i ==> word_in_tags(#[trigger] texts(tokens@)[j], texts(event_tags@)),
    {
        assert(texts(tokens@)[i as int] == tokens@[i as int]@);
        if !matches_some_tag(tokens[i].as_str(), event_tags) {
            return false;
        }
    }
    true
}

/// Check if a query capability fuzzy-matches tokens in a free-text field (name or description).
/// Uses the same tokenization and prefix logic as [`matches_capability`].
pub fn matches_capability_in_text(query_cap: &str, text: &str) -> (yes: bool)
    ensures
        yes == capability_in_text(query_cap@, text@),
{
    let tokens = split_words(query_cap, Breaks::Separators);
    if tokens.len() == 0 {
        return false;
    }
    let text_words = split_words(text, Breaks::Separators);
    for i in 0..tokens.len()
        invariant
            tokens.len() > 0,
            texts(tokens@) == words(query_cap@, Breaks::Separators),
            texts(text_words@) == words(text@, Breaks::Separators),
            forall|j: int|
                0 <= j < i ==> word_among(#[trigger] texts(tokens@)[j], texts(text_words@)),
    {
        assert(texts(tokens@)[i as int] == tokens@[i as int]@);
        if !matches_some(tokens[i].as_str(), &text_words) {
            return false;
        }
    }
    true
}

/// Check if a free-text query matches a capability card (name, description, or capabilities).
pub fn matches_query(query: &str, card: &CapabilityCard) -> (yes: bool)
    ensures
        yes == query_on_card(query@, card@),
{
    let wanted = lowercase(query);
    let name_lower = lowercase(card.name.as_str());
    let description_lower = lowercase(card.description.as_str());
    if contains_text(name_lower.as_str(), wanted.as_str()) || contains_text(
        description_lower.as_str(),
        wanted.as_str(),
    ) {
        return true;
    }
    for i in 0..card.capabilities.len()
        invariant
            wanted@ == lowercase_of(query@),
            !has_substring(lowercase_of(card.name@), wanted@),
            !has_substring(lowercase_of(card.description@), wanted@),
            forall|j: int|
                0 <= j < i ==> !has_substring(
                    lowercase_of(#[trigger] card@.capabilities[j]),
                    wanted@,
                ),
    {
        let capability_lower = lowercase(card.capabilities[i].as_str());
        assert(card@.capabilities[i as int] == card.capabilities@[i as int]@);
        if contains_text(capability_lower.as_str(), wanted.as_str()) {
            return true;
        }
    }
    false
}

/// A d-tag holds no white space.
pub proof fn d_tag_has_no_white_space(name: Seq<char>)
    ensures
        is_unbroken(d_tag_form(name), Breaks::Whitespace),
        is_unbroken(ascii_d_tag_form(name), Breaks::Whitespace),
{
    reveal_strlit("-");
    lemma_words_are_unbroken(lowercase_of(name), Breaks::Whitespace);
    lemma_joined_is_unbroken(
        words(lowercase_of(name), Breaks::Whitespace),
        "-"@,
        Breaks::Whitespace,
    );
    lemma_words_are_unbroken(ascii_lowercase_of(name), Breaks::Whitespace);
    lemma_joined_is_unbroken(
        words(ascii_lowercase_of(name), Breaks::Whitespace),
        "-"@,
        Breaks::Whitespace,
    );
}

/// Taking the d-tag of a d-tag changes nothing, where the d-tag is in lower case.
pub proof fn d_tag_in_lower_case_is_its_own(name: Seq<char>)
    requires
        lowercase_of(d_tag_form(name)) == d_tag_form(name),
    ensures
        d_tag_form(d_tag_form(name)) == d_tag_form(name),
{
    d_tag_has_no_white_space(name);
    lemma_words_of_unbroken(d_tag_form(name), Breaks::Whitespace);
}

/// The d-tag of an ASCII name is ASCII, and taking the d-tag again changes nothing.
pub proof fn ascii_d_tag_is_its_own(name: Seq<char>)
    requires
        is_ascii_text(name),
    ensures
        is_ascii_text(ascii_d_tag_form(name)),
        ascii_d_tag_form(ascii_d_tag_form(name)) == ascii_d_tag_form(name),
{
    let lower = ascii_lowercase_of(name);
    assert forall|i: int| 0 <= i < lower.len() implies is_ascii_lower(#[trigger] lower[i]) by {
        assert((name[i] as u32) < 128);
    }
    let runs = words_are_the_longest_runs(lower, Breaks::Whitespace);
    let parts = words(lower, Breaks::Whitespace);
    assert forall|i: int| 0 <= i < parts.len() implies all_ascii_lower(#[trigger] parts[i]) by {
        assert(is_word_at(lower, Breaks::Whitespace, runs[i].0, runs[i].1));
        assert forall|j: int| 0 <= j < parts[i].len() implies is_ascii_lower(
            #[trigger] parts[i][j],
        ) by {
            assert(parts[i][j] == lower[runs[i].0 + j]);
        }
    }
    let tag = ascii_d_tag_form(name);
    lemma_joined_is_ascii_lower(parts);
    assert forall|i: int| 0 <= i < tag.len() implies (#[trigger] tag[i] as u32) < 128 by {
        assert(is_ascii_lower(tag[i]));
    }
    assert forall|i: int| 0 <= i < tag.len() implies ascii_lowercase(#[trigger] tag[i])
        == tag[i] by {
        assert(is_ascii_lower(tag[i]));
    }
    assert(ascii_lowercase_of(tag) =~= tag);
    d_tag_has_no_white_space(name);
    lemma_words_of_unbroken(tag, Breaks::Whitespace);
}

/// Whether a character lies in the ASCII range and is no upper case letter.
spec fn is_ascii_lower(c: char) -> bool {
    (c as u32) < 128 && !('A' <= c <= 'Z')
}

/// Whether every character lies in the ASCII range and none is an upper case letter.
spec fn all_ascii_lower(text: Seq<char>) -> bool {
    forall|i: int| 0 <= i < text.len() ==> is_ascii_lower(#[trigger] text[i])
}

/// ASCII parts in lower case with hyphens between them are ASCII and in lower case.
proof fn lemma_joined_is_ascii_lower(parts: Seq<Seq<char>>)
    requires
        forall|i: int| 0 <= i < parts.len() ==> all_ascii_lower(#[trigger] parts[i]),
    ensures
        all_ascii_lower(joined(parts, "-"@)),
    decreases parts.len(),
{
    reveal_strlit("-");
    if parts.len() == 1 {
        assert(all_ascii_lower(parts[0]));
    } else if parts.len() > 1 {
        let front = parts.drop_last();
        assert forall|i: int| 0 <= i < front.len() implies all_ascii_lower(#[trigger] front[i]) by {
            assert(front[i] == parts[i]);
        }
        lemma_joined_is_ascii_lower(front);
        let head = joined(front, "-"@);
        let whole = joined(parts, "-"@);
        assert(all_ascii_lower(parts[parts.len() - 1]));
        assert forall|i: int| 0 <= i < whole.len() implies is_ascii_lower(#[trigger] whole[i]) by {
            if i < head.len() {
                assert(whole[i] == head[i]);
            } else if i == head.len() {
                assert(whole[i] == '-');
            } else {
                assert(whole[i] == parts.last()[i - head.len() - 1]);
            }
        }
    }
}

/// An event without tags has no capability.
pub proof fn no_tags_no_match(capability: Seq<char>)
    ensures
        !capability_in_tags(capability, Seq::empty()),
{
    let tokens = words(capability, Breaks::Separators);
    if tokens.len() > 0 {
        assert(!word_in_tags(tokens[0], Seq::empty()));
    }
}

/// A capability with a token matches a free text exactly where it matches that text taken as
/// the only tag of an event.
pub proof fn text_is_matched_like_a_tag(capability: Seq<char>, text: Seq<char>)
    requires
        words(capability, Breaks::Separators).len() > 0,
    ensures
        capability_in_text(capability, text) == capability_in_tags(capability, seq![text]),
{
    let tokens = words(capability, Breaks::Separators);
    let others = words(text, Breaks::Separators);
    let tags = seq![text];
    assert forall|i: int| 0 <= i < tokens.len() implies word_in_tags(#[trigger] tokens[i], tags)
        == word_among(tokens[i], others) by {
        assert(tags[0] == text);
    }
    if tags.contains(capability) {
        assert(capability == text);
        assert forall|i: int| 0 <= i < tokens.len() implies word_among(
            #[trigger] tokens[i],
            others,
        ) by {
            assert(tokens_fuzzy_match(lowercase_of(tokens[i]), lowercase_of(others[i])));
        }
    }
}

/// Fuzzy matching does not depend on which of the two tokens was asked for.
pub proof fn tokens_match_both_ways(a: Seq<char>, b: Seq<char>)
    ensures
        tokens_fuzzy_match(a, b) == tokens_fuzzy_match(b, a),
{
}

/// A token below the minimum length matches itself and nothing else.
pub proof fn short_tokens_match_only_themselves(a: Seq<char>, b: Seq<char>)
    requires
        a.len() < MIN_FUZZY_PREFIX_LEN,
    ensures
        tokens_fuzzy_match(a, b) == (a == b),
{
}

/// A free-text query is matched regardless of case: queries with the same lower case form
/// match the same cards.
pub proof fn query_case_does_not_matter(a: Seq<char>, b: Seq<char>, card: CapabilityCardView)
    requires
        lowercase_of(a) == lowercase_of(b),
    ensures
        query_on_card(a, card) == query_on_card(b, card),
{
}

/// Two tokens match exactly where they are equal, or both have at least four characters and
/// agree as far as the shorter one goes.
pub proof fn tokens_match_as_far_as_they_go(a: Seq<char>, b: Seq<char>)
    ensures
        tokens_fuzzy_match(a, b) <==> a == b || (a.len() >= 4 && b.len() >= 4 && (forall|i: int|
            0 <= i < a.len() && i < b.len() ==> #[trigger] a[i] == b[i])),
{
    if a.len() >= 4 && b.len() >= 4 && (forall|i: int|
        0 <= i < a.len() && i < b.len() ==> #[trigger] a[i] == b[i]) {
        if a.len() <= b.len() {
            assert(b.subrange(0, a.len() as int) =~= a);
        } else {
            assert(a.subrange(0, b.len() as int) =~= b);
        }
    }
    if a.is_prefix_of(b) {
        assert forall|i: int| 0 <= i < a.len() && i < b.len() implies #[trigger] a[i] == b[i] by {
            assert(b.subrange(0, a.len() as int)[i] == b[i]);
        }
    }
    if b.is_prefix_of(a) {
        assert forall|i: int| 0 <= i < a.len() && i < b.len() implies #[trigger] a[i] == b[i] by {
            assert(a.subrange(0, b.len() as int)[i] == a[i]);
        }
    }
}

/// Whether `text[from..to]` is a token: a longest run without hyphen, underscore and space.
pub open spec fn is_token(text: Seq<char>, from: int, to: int) -> bool {
    &&& 0 <= from < to <= text.len()
    &&& forall|i: int|
        from <= i < to ==> (#[trigger] text[i]) != '-' && text[i] != '_' && text[i] != ' '
    &&& from == 0 || text[from - 1] == '-' || text[from - 1] == '_' || text[from - 1] == ' '
    &&& to == text.len() || text[to] == '-' || text[to] == '_' || text[to] == ' '
}

/// Whether a token of `capability` and one of `text` match, regardless of case.
pub open spec fn tokens_meet(
    capability: Seq<char>,
    from: int,
    to: int,
    text: Seq<char>,
    start: int,
    end: int,
) -> bool {
    let a = lowercase_of(capability.subrange(from, to));
    let b = lowercase_of(text.subrange(start, end));
    &&& is_token(text, start, end)
    &&& a == b || (a.len() >= 4 && b.len() >= 4 && (forall|i: int|
        0 <= i < a.len() && i < b.len() ==> #[trigger] a[i] == b[i]))
}

/// The words between hyphens, underscores and spaces are the tokens.
proof fn lemma_tokens(text: Seq<char>) -> (runs: Seq<(int, int)>)
    ensures
        runs.len() == words(text, Breaks::Separators).len(),
        forall|i: int|
            0 <= i < runs.len() ==> is_token(text, (#[trigger] runs[i]).0, runs[i].1) && words(
                text,
                Breaks::Separators,
            )[i] == text.subrange(runs[i].0, runs[i].1),
        forall|from: int, to: int| #[trigger]
            is_token(text, from, to) ==> runs.contains((from, to)),
{
    let runs = words_are_the_longest_runs(text, Breaks::Separators);
    assert forall|from: int, to: int| #[trigger] is_token(text, from, to) == is_word_at(
        text,
        Breaks::Separators,
        from,
        to,
    ) by {
        if is_word_at(text, Breaks::Separators, from, to) {
            assert forall|i: int| from <= i < to implies (#[trigger] text[i]) != '-' && text[i]
                != '_' && text[i] != ' ' by {
                assert(!Breaks::Separators.splits(text[i]));
            }
        }
    }
    assert forall|i: int| 0 <= i < runs.len() implies is_token(
        text,
        (#[trigger] runs[i]).0,
        runs[i].1,
    ) by {
        assert(is_word_at(text, Breaks::Separators, runs[i].0, runs[i].1));
    }
    assert forall|from: int, to: int| #[trigger] is_token(text, from, to) implies runs.contains(
        (from, to),
    ) by {
        assert(is_word_at(text, Breaks::Separators, from, to));
    }
    runs
}

/// A token is among the words of a text exactly where it meets a token of the text.
proof fn lemma_token_among(capability: Seq<char>, from: int, to: int, text: Seq<char>)
    ensures
        word_among(capability.subrange(from, to), words(text, Breaks::Separators))
            <==> exists|start: int, end: int| #[trigger]
            tokens_meet(capability, from, to, text, start, end),
{
    let word = capability.subrange(from, to);
    let others = words(text, Breaks::Separators);
    let runs = lemma_tokens(text);
    if word_among(word, others) {
        let i = choose|i: int|
            0 <= i < others.len() && tokens_fuzzy_match(
                lowercase_of(word),
                lowercase_of(#[trigger] others[i]),
            );
        tokens_match_as_far_as_they_go(lowercase_of(word), lowercase_of(others[i]));
        assert(is_token(text, runs[i].0, runs[i].1));
        assert(tokens_meet(capability, from, to, text, runs[i].0, runs[i].1));
    }
    if exists|start: int, end: int| #[trigger]
        tokens_meet(capability, from, to, text, start, end) {
        let (start, end) = choose|start: int, end: int| #[trigger]
            tokens_meet(capability, from, to, text, start, end);
        assert(runs.contains((start, end)));
        let i = choose|i: int| 0 <= i < runs.len() && runs[i] == (start, end);
        assert(others[i] == text.subrange(start, end));
        tokens_match_as_far_as_they_go(lowercase_of(word), lowercase_of(others[i]));
    }
}

/// A capability matches the tags of an event exactly where it is one of them, or it has a
/// token and each of its tokens meets a token of some tag.
pub proof fn tags_are_matched_token_by_token(capability: Seq<char>, tags: Seq<Seq<char>>)
    ensures
        capability_in_tags(capability, tags) <==> tags.contains(capability) || ((exists|
            from: int,
            to: int,
        | #[trigger]
            is_token(capability, from, to)) && (forall|from: int, to: int| #[trigger]
            is_token(capability, from, to) ==> exists|n: int, start: int, end: int|
                0 <= n < tags.len() && #[trigger] tokens_meet(
                    capability,
                    from,
                    to,
                    tags[n],
                    start,
                    end,
                ))),
{
    let tokens = words(capability, Breaks::Separators);
    let runs = lemma_tokens(capability);
    assert forall|i: int| 0 <= i < tokens.len() implies (word_in_tags(#[trigger] tokens[i], tags)
        <==> exists|n: int, start: int, end: int|
        0 <= n < tags.len() && #[trigger] tokens_meet(
            capability,
            runs[i].0,
            runs[i].1,
            tags[n],
            start,
            end,
        )) by {
        let (from, to) = runs[i];
        if word_in_tags(tokens[i], tags) {
            let n = choose|n: int|
                0 <= n < tags.len() && word_among(
                    tokens[i],
                    words(#[trigger] tags[n], Breaks::Separators),
                );
            lemma_token_among(capability, from, to, tags[n]);
            let (start, end) = choose|start: int, end: int| #[trigger]
                tokens_meet(capability, from, to, tags[n], start, end);
            assert(tokens_meet(capability, from, to, tags[n], start, end));
        }
        if exists|n: int, start: int, end: int|
            0 <= n < tags.len() && #[trigger] tokens_meet(
                capability,
                from,
                to,
                tags[n],
                start,
                end,
            ) {
            let (n, start, end) = choose|n: int, start: int, end: int|
                0 <= n < tags.len() && #[trigger] tokens_meet(
                    capability,
                    from,
                    to,
                    tags[n],
                    start,
                    end,
                );
            lemma_token_among(capability, from, to, tags[n]);
            assert(word_among(tokens[i], words(tags[n], Breaks::Separators)));
        }
    }
    if exists|from: int, to: int| #[trigger] is_token(capability, from, to) {
        let (from, to) = choose|from: int, to: int| #[trigger] is_token(capability, from, to);
        assert(runs.contains((from, to)));
    }
    if tokens.len() > 0 {
        assert(is_token(capability, runs[0].0, runs[0].1));
        if forall|i: int| 0 <= i < tokens.len() ==> word_in_tags(#[trigger] tokens[i], tags) {
            assert forall|from: int, to: int| #[trigger]
                is_token(capability, from, to) implies exists|n: int, start: int, end: int|
                0 <= n < tags.len() && #[trigger] tokens_meet(
                    capability,
                    from,
                    to,
                    tags[n],
                    start,
                    end,
                ) by {
                assert(runs.contains((from, to)));
                let i = choose|i: int| 0 <= i < runs.len() && runs[i] == (from, to);
                assert(word_in_tags(tokens[i], tags));
            }
        }
        if forall|from: int, to: int| #[trigger]
            is_token(capability, from, to) ==> exists|n: int, start: int, end: int|
                0 <= n < tags.len() && #[trigger] tokens_meet(
                    capability,
                    from,
                    to,
                    tags[n],
                    start,
                    end,
                ) {
            assert forall|i: int| 0 <= i < tokens.len() implies word_in_tags(
                #[trigger] tokens[i],
                tags,
            ) by {
                assert(is_token(capability, runs[i].0, runs[i].1));
            }
        }
    }
}

/// A capability matches a free text exactly where it has a token and each of its tokens meets
/// a token of the text.
pub proof fn text_is_matched_token_by_token(capability: Seq<char>, text: Seq<char>)
    ensures
        capability_in_text(capability, text) <==> (exists|from: int, to: int| #[trigger]
            is_token(capability, from, to)) && (forall|from: int, to: int| #[trigger]
            is_token(capability, from, to) ==> exists|start: int, end: int| #[trigger]
                tokens_meet(capability, from, to, text, start, end)),
{
    let tokens = words(capability, Breaks::Separators);
    let others = words(text, Breaks::Separators);
    let runs = lemma_tokens(capability);
    assert forall|i: int| 0 <= i < tokens.len() implies (word_among(#[trigger] tokens[i], others)
        <==> exists|start: int, end: int| #[trigger]
        tokens_meet(capability, runs[i].0, runs[i].1, text, start, end)) by {
        lemma_token_among(capability, runs[i].0, runs[i].1, text);
    }
    if exists|from: int, to: int| #[trigger] is_token(capability, from, to) {
        let (from, to) = choose|from: int, to: int| #[trigger] is_token(capability, from, to);
        assert(runs.contains((from, to)));
    }
    if tokens.len() > 0 {
        assert(is_token(capability, runs[0].0, runs[0].1));
    }
    if capability_in_text(capability, text) {
        assert forall|from: int, to: int| #[trigger]
            is_token(capability, from, to) implies exists|start: int, end: int| #[trigger]
            tokens_meet(capability, from, to, text, start, end) by {
            assert(runs.contains((from, to)));
            let i = choose|i: int| 0 <= i < runs.len() && runs[i] == (from, to);
            assert(word_among(tokens[i], others));
        }
    }
    if forall|from: int, to: int| #[trigger]
        is_token(capability, from, to) ==> exists|start: int, end: int| #[trigger]
            tokens_meet(capability, from, to, text, start, end) {
        assert forall|i: int| 0 <= i < tokens.len() implies word_among(
            #[trigger] tokens[i],
            others,
        ) by {
            assert(is_token(capability, runs[i].0, runs[i].1));
        }
    }
}

/// A query that stands somewhere in the lower case form of a card's name, of its description
/// or of any one of its capabilities matches the card.
pub proof fn query_is_found_wherever_it_stands(
    query: Seq<char>,
    card: CapabilityCardView,
    at: int,
    i: int,
)
    requires
        0 <= at,
    ensures
        at + lowercase_of(query).len() <= lowercase_of(card.name).len() && lowercase_of(
            card.name,
        ).subrange(at, at + lowercase_of(query).len()) == lowercase_of(query) ==> query_on_card(
            query,
            card,
        ),
        at + lowercase_of(query).len() <= lowercase_of(card.description).len() && lowercase_of(
            card.description,
        ).subrange(at, at + lowercase_of(query).len()) == lowercase_of(query) ==> query_on_card(
            query,
            card,
        ),
        0 <= i < card.capabilities.len() && at + lowercase_of(query).len() <= lowercase_of(
            card.capabilities[i],
        ).len() && lowercase_of(card.capabilities[i]).subrange(
            at,
            at + lowercase_of(query).len(),
        ) == lowercase_of(query) ==> query_on_card(query, card),
{
    let wanted = lowercase_of(query);
    assert(stands_at(lowercase_of(card.name), wanted, at) ==> has_substring(
        lowercase_of(card.name),
        wanted,
    ));
    assert(stands_at(lowercase_of(card.description), wanted, at) ==> has_substring(
        lowercase_of(card.description),
        wanted,
    ));
    if 0 <= i < card.capabilities.len() {
        assert(stands_at(lowercase_of(card.capabilities[i]), wanted, at) ==> has_substring(
            lowercase_of(card.capabilities[i]),
            wanted,
        ));
    }
}

/// A query that matches a card stands in one of its texts: `-2` says the name, `-1` the
/// description, and the rest the capability at that position.
pub proof fn matching_query_stands_somewhere(query: Seq<char>, card: CapabilityCardView) -> (found:
    (int, int))
    requires
        query_on_card(query, card),
    ensures
        ({
            let (which, at) = found;
            let text = lowercase_of(
                if which == -2 {
                    card.name
                } else if which == -1 {
                    card.description
                } else {
                    card.capabilities[which]
                },
            );
            let wanted = lowercase_of(query);
            &&& -2 <= which < card.capabilities.len()
            &&& 0 <= at && at + wanted.len() <= text.len()
            &&& text.subrange(at, at + wanted.len()) == wanted
        }),
{
    let wanted = lowercase_of(query);
    if has_substring(lowercase_of(card.name), wanted) {
        (-2, choose|at: int| #[trigger] stands_at(lowercase_of(card.name), wanted, at))
    } else if has_substring(lowercase_of(card.description), wanted) {
        (-1, choose|at: int| #[trigger] stands_at(lowercase_of(card.description), wanted, at))
    } else {
        let i = choose|i: int|
            0 <= i < card.capabilities.len() && has_substring(
                lowercase_of(#[trigger] card.capabilities[i]),
                wanted,
            );
        (i, choose|at: int| #[trigger] stands_at(lowercase_of(card.capabilities[i]), wanted, at))
    }
}

/// Neither the order of a card's capabilities nor how often one is named changes whether a
/// query matches.
pub proof fn order_of_capabilities_does_not_matter(
    query: Seq<char>,
    card: CapabilityCardView,
    other: CapabilityCardView,
)
    requires
        card.name == other.name,
        card.description == other.description,
        forall|capability: Seq<char>| #[trigger]
            card.capabilities.contains(capability) <==> other.capabilities.contains(capability),
    ensures
        query_on_card(query, card) == query_on_card(query, other),
{
    let wanted = lowercase_of(query);
    assert forall|i: int| 0 <= i < card.capabilities.len() implies other.capabilities.contains(
        #[trigger] card.capabilities[i],
    ) by {
        assert(card.capabilities.contains(card.capabilities[i]));
    }
    assert forall|i: int| 0 <= i < other.capabilities.len() implies card.capabilities.contains(
        #[trigger] other.capabilities[i],
    ) by {
        assert(other.capabilities.contains(other.capabilities[i]));
    }
    if query_on_card(query, card) {
        let (which, at) = matching_query_stands_somewhere(query, card);
        let j = if which >= 0 {
            choose|j: int|
                0 <= j < other.capabilities.len() && other.capabilities[j]
                    == card.capabilities[which]
        } else {
            0
        };
        query_is_found_wherever_it_stands(query, other, at, j);
    }
    if query_on_card(query, other) {
        let (which, at) = matching_query_stands_somewhere(query, other);
        let j = if which >= 0 {
            choose|j: int|
                0 <= j < card.capabilities.len() && card.capabilities[j]
                    == other.capabilities[which]
        } else {
            0
        };
        query_is_found_wherever_it_stands(query, card, at, j);
    }
}

/// A name that is one word has its lower case form as d-tag, and white space alone gives the
/// empty one.
pub proof fn d_tag_of_one_word(name: Seq<char>)
    ensures
        (forall|i: int|
            0 <= i < lowercase_of(name).len() ==> !is_white_space(#[trigger] lowercase_of(name)[i]))
            ==> d_tag_form(name) == lowercase_of(name),
        (forall|i: int|
            0 <= i < name.len() ==> !is_white_space(#[trigger] ascii_lowercase_of(name)[i]))
            ==> ascii_d_tag_form(name) == ascii_lowercase_of(name),
{
    let lower = lowercase_of(name);
    if forall|i: int| 0 <= i < lower.len() ==> !is_white_space(#[trigger] lower[i]) {
        assert(is_unbroken(lower, Breaks::Whitespace));
        lemma_words_of_unbroken(lower, Breaks::Whitespace);
        assert(lower.len() == 0 ==> lower =~= Seq::empty());
    }
    let ascii = ascii_lowercase_of(name);
    if forall|i: int| 0 <= i < name.len() ==> !is_white_space(#[trigger] ascii[i]) {
        assert(is_unbroken(ascii, Breaks::Whitespace));
        lemma_words_of_unbroken(ascii, Breaks::Whitespace);
        assert(ascii.len() == 0 ==> ascii =~= Seq::empty());
    }
}

/// White space in a name becomes one hyphen between the d-tags of what stands before and
/// behind it, and nothing where one of them is empty.
pub proof fn white_space_becomes_one_hyphen(
    name: Seq<char>,
    left: Seq<char>,
    space: char,
    right: Seq<char>,
)
    requires
        lowercase_of(name) == lowercase_of(left).push(space) + lowercase_of(right),
        is_white_space(space),
    ensures
        d_tag_form(left).len() == 0 ==> d_tag_form(name) == d_tag_form(right),
        d_tag_form(right).len() == 0 ==> d_tag_form(name) == d_tag_form(left),
        d_tag_form(left).len() > 0 && d_tag_form(right).len() > 0 ==> d_tag_form(name)
            == d_tag_form(left).push('-') + d_tag_form(right),
{
    lemma_hyphen_between(lowercase_of(left), space, lowercase_of(right));
}

/// White space in an ASCII name becomes one hyphen between the d-tags of what stands before
/// and behind it, and nothing where one of them is empty.
pub proof fn white_space_in_ascii_becomes_one_hyphen(
    left: Seq<char>,
    space: char,
    right: Seq<char>,
)
    requires
        is_white_space(space),
    ensures
        ({
            let whole = ascii_d_tag_form(left.push(space) + right);
            let first = ascii_d_tag_form(left);
            let second = ascii_d_tag_form(right);
            &&& first.len() == 0 ==> whole == second
            &&& second.len() == 0 ==> whole == first
            &&& first.len() > 0 && second.len() > 0 ==> whole == first.push('-') + second
        }),
{
    assert(ascii_lowercase_of(left.push(space) + right) =~= ascii_lowercase_of(left).push(space)
        + ascii_lowercase_of(right));
    lemma_hyphen_between(ascii_lowercase_of(left), space, ascii_lowercase_of(right));
}

/// What joining the words of two texts with white space between them gives.
proof fn lemma_hyphen_between(left: Seq<char>, space: char, right: Seq<char>)
    requires
        is_white_space(space),
    ensures
        ({
            let whole = joined(words(left.push(space) + right, Breaks::Whitespace), "-"@);
            let first = joined(words(left, Breaks::Whitespace), "-"@);
            let second = joined(words(right, Breaks::Whitespace), "-"@);
            &&& first.len() == 0 ==> whole == second
            &&& second.len() == 0 ==> whole == first
            &&& first.len() > 0 && second.len() > 0 ==> whole == first.push('-') + second
        }),
{
    reveal_strlit("-");
    let before = words(left, Breaks::Whitespace);
    let after = words(right, Breaks::Whitespace);
    words_of_both_sides(left, space, right, Breaks::Whitespace);
    lemma_joined_words_are_not_empty(left);
    lemma_joined_words_are_not_empty(right);
    if before.len() == 0 {
        assert(before + after =~= after);
    } else if after.len() == 0 {
        assert(before + after =~= before);
    } else {
        joined_of_both(before, after, "-"@);
        assert(joined(before, "-"@) + "-"@ =~= joined(before, "-"@).push('-'));
    }
}

/// Joining words gives nothing only where there are none.
proof fn lemma_joined_words_are_not_empty(text: Seq<char>)
    ensures
        words(text, Breaks::Whitespace).len() > 0 <==> joined(
            words(text, Breaks::Whitespace),
            "-"@,
        ).len() > 0,
{
    reveal_strlit("-");
    let parts = words(text, Breaks::Whitespace);
    let runs = words_are_the_longest_runs(text, Breaks::Whitespace);
    if parts.len() == 1 {
        assert(is_word_at(text, Breaks::Whitespace, runs[0].0, runs[0].1));
    }
}

} // verus!
