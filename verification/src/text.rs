//! Text as a sequence of characters: lower case, words, prefixes and substrings.
use vstd::prelude::*;

verus! {

/// The text that `str::to_lowercase` gives for `text`.
pub uninterp spec fn lowercase_of(text: Seq<char>) -> Seq<char>;

/// Whether every character lies in the ASCII range.
pub open spec fn is_ascii_text(text: Seq<char>) -> bool {
    forall|i: int| 0 <= i < text.len() ==> (#[trigger] text[i] as u32) < 128
}

/// `c` with the letters `A` to `Z` mapped to `a` to `z`.
pub open spec fn ascii_lowercase(c: char) -> char {
    if 'A' <= c <= 'Z' {
        ((c as u32) + 32) as char
    } else {
        c
    }
}

/// `text` with the letters `A` to `Z` mapped to `a` to `z`.
pub open spec fn ascii_lowercase_of(text: Seq<char>) -> Seq<char> {
    text.map_values(|c: char| ascii_lowercase(c))
}

/// Whether `c` has the Unicode property `White_Space`.
pub open spec fn is_white_space(c: char) -> bool {
    let n = c as u32;
    ||| 0x9 <= n <= 0xd
    ||| n == 0x20 || n == 0x85 || n == 0xa0 || n == 0x1680
    ||| 0x2000 <= n <= 0x200a
    ||| n == 0x2028 || n == 0x2029 || n == 0x202f || n == 0x205f || n == 0x3000
}

/// Calls `str::to_lowercase`: the result depends on the text alone, and on ASCII text
/// it maps each letter and leaves every other character as it is.
#[verifier::external_body]
pub(crate) fn lowercase(text: &str) -> (lower: String)
    ensures
        lower@ == lowercase_of(text@),
        is_ascii_text(text@) ==> lower@ == ascii_lowercase_of(text@),
{
    text.to_lowercase()
}

/// Calls `char::is_whitespace`: true of the characters with the property `White_Space`.
#[verifier::external_body]
fn char_is_whitespace(c: char) -> (yes: bool)
    ensures
        yes == is_white_space(c),
{
    c.is_whitespace()
}

/// What separates one word from the next.
#[derive(Debug, Clone, Copy)]
pub enum Breaks {
    /// Hyphen, underscore and space: the separators of a capability name.
    Separators,
    /// Any white space.
    Whitespace,
}

impl Breaks {
    /// Whether `c` separates words.
    pub open spec fn splits(self, c: char) -> bool {
        match self {
            Breaks::Separators => c == '-' || c == '_' || c == ' ',
            Breaks::Whitespace => is_white_space(c),
        }
    }

    /// Whether `c` separates words.
    pub fn splits_at(self, c: char) -> (yes: bool)
        ensures
            yes == self.splits(c),
    {
        match self {
            Breaks::Separators => c == '-' || c == '_' || c == ' ',
            Breaks::Whitespace => char_is_whitespace(c),
        }
    }
}

/// The words of a text: its longest runs without a break, from left to right.
pub open spec fn words(text: Seq<char>, breaks: Breaks) -> Seq<Seq<char>>
    decreases text.len(),
{
    if text.len() == 0 {
        Seq::empty()
    } else {
        let before = words(text.drop_last(), breaks);
        if breaks.splits(text.last()) {
            before
        } else if text.len() == 1 || breaks.splits(text[text.len() - 2]) {
            before.push(seq![text.last()])
        } else {
            before.drop_last().push(before.last().push(text.last()))
        }
    }
}

/// Whether `text[from..to]` is a longest run without a break.
pub open spec fn is_word_at(text: Seq<char>, breaks: Breaks, from: int, to: int) -> bool {
    &&& 0 <= from < to <= text.len()
    &&& forall|i: int| from <= i < to ==> !breaks.splits(#[trigger] text[i])
    &&& from == 0 || breaks.splits(text[from - 1])
    &&& to == text.len() || breaks.splits(text[to])
}

/// The parts one after the other, with `separator` between neighbours.
pub open spec fn joined(parts: Seq<Seq<char>>, separator: Seq<char>) -> Seq<char>
    decreases parts.len(),
{
    if parts.len() == 0 {
        Seq::empty()
    } else if parts.len() == 1 {
        parts[0]
    } else {
        joined(parts.drop_last(), separator) + separator + parts.last()
    }
}

/// Whether `part` stands somewhere in `text`.
pub open spec fn has_substring(text: Seq<char>, part: Seq<char>) -> bool {
    exists|at: int| #[trigger] stands_at(text, part, at)
}

/// Whether `part` stands in `text` at position `at`.
pub open spec fn stands_at(text: Seq<char>, part: Seq<char>, at: int) -> bool {
    0 <= at && at + part.len() <= text.len() && text.subrange(at, at + part.len()) == part
}

/// The contents of a list of strings.
pub open spec fn texts(list: Seq<String>) -> Seq<Seq<char>> {
    list.map_values(|text: String| text@)
}

/// The contents of a list of lists of strings.
pub open spec fn text_lists(list: Seq<Vec<String>>) -> Seq<Seq<Seq<char>>> {
    list.map_values(|inner: Vec<String>| texts(inner@))
}

/// The characters of a text.
pub(crate) fn chars_of(text: &str) -> (chars: Vec<char>)
    ensures
        chars@ == text@,
{
    let mut chars: Vec<char> = Vec::new();
    for c in it: text.chars()
        invariant
            chars@ == it.seq().take(it.index() as int),
            it.seq() == text@,
    {
        chars.push(c);
    }
    chars
}

/// Whether two texts hold the same characters.
pub(crate) fn same_text(a: &str, b: &str) -> (same: bool)
    ensures
        same == (a@ == b@),
{
    a.to_owned() == b.to_owned()
}

/// Whether the list holds `wanted`.
pub(crate) fn list_contains(list: &Vec<String>, wanted: &str) -> (found: bool)
    ensures
        found == texts(list@).contains(wanted@),
{
    for i in 0..list.len()
        invariant
            forall|j: int| 0 <= j < i ==> #[trigger] texts(list@)[j] != wanted@,
    {
        if same_text(list[i].as_str(), wanted) {
            assert(texts(list@)[i as int] == wanted@);
            return true;
        }
    }
    false
}

/// The words of a text, in order.
pub fn split_words(text: &str, breaks: Breaks) -> (found: Vec<String>)
    ensures
        texts(found@) == words(text@, breaks),
{
    let chars = chars_of(text);
    let mut found: Vec<String> = Vec::new();
    let mut run: Option<usize> = None;
    let mut i: usize = 0;
    while i < chars.len()
        invariant
            chars@ == text@,
            i <= chars.len(),
            match run {
                Some(from) => {
                    &&& from < i
                    &&& !breaks.splits(text@[i - 1])
                    &&& words(text@.take(i as int), breaks)
                        == texts(found@).push(text@.subrange(from as int, i as int))
                },
                None => {
                    &&& i == 0 || breaks.splits(text@[i - 1])
                    &&& words(text@.take(i as int), breaks) == texts(found@)
                },
            },
        decreases chars.len() - i,
    {
        let ghost seen = text@.take(i + 1);
        let ghost before = found@;
        proof {
            assert(seen.drop_last() =~= text@.take(i as int));
            assert(seen.last() == text@[i as int]);
        }
        let ends = breaks.splits_at(chars[i]);
        match run {
            Some(from) => {
                if ends {
                    let word = text.substring_char(from, i).to_owned();
                    found.push(word);
                    run = None;
                    assert(texts(found@) =~= texts(before).push(word@));
                } else {
                    assert(text@.subrange(from as int, i as int).push(text@[i as int])
                        =~= text@.subrange(from as int, i + 1));
                    assert(texts(found@).push(text@.subrange(from as int, i as int)).drop_last()
                        =~= texts(found@));
                }
            },
            None => {
                if !ends {
                    run = Some(i);
                    assert(text@.subrange(i as int, i + 1) =~= seq![text@[i as int]]);
                }
            },
        }
        i += 1;
    }
    assert(text@.take(i as int) =~= text@);
    if let Some(from) = run {
        let ghost before = found@;
        let word = text.substring_char(from, chars.len()).to_owned();
        found.push(word);
        assert(texts(found@) =~= texts(before).push(word@));
    }
    found
}

/// The strings one after the other, with `separator` between neighbours.
pub(crate) fn join(parts: &Vec<String>, separator: &str) -> (whole: String)
    ensures
        whole@ == joined(texts(parts@), separator@),
{
    let mut whole = String::new();
    for i in 0..parts.len()
        invariant
            whole@ == joined(texts(parts@).take(i as int), separator@),
    {
        let ghost taken = texts(parts@).take(i + 1);
        assert(taken.drop_last() =~= texts(parts@).take(i as int));
        assert(taken.last() == parts@[i as int]@);
        if i > 0 {
            whole.append(separator);
        }
        whole.append(parts[i].as_str());
        assert(whole@ =~= joined(taken, separator@));
    }
    assert(texts(parts@).take(parts@.len() as int) =~= texts(parts@));
    whole
}

/// Whether `text` begins with `start`.
pub(crate) fn begins_with(text: &str, start: &str) -> (yes: bool)
    ensures
        yes == start@.is_prefix_of(text@),
{
    let text_chars = chars_of(text);
    let start_chars = chars_of(start);
    if start_chars.len() > text_chars.len() {
        return false;
    }
    for i in 0..start_chars.len()
        invariant
            text_chars@ == text@,
            start_chars@ == start@,
            start_chars.len() <= text_chars.len(),
            forall|j: int| 0 <= j < i ==> start@[j] == text@[j],
    {
        if start_chars[i] != text_chars[i] {
            assert(text@.subrange(0, start@.len() as int)[i as int] != start@[i as int]);
            return false;
        }
    }
    assert(text@.subrange(0, start@.len() as int) =~= start@);
    true
}

/// Whether `part` stands somewhere in `text`.
pub(crate) fn contains_text(text: &str, part: &str) -> (yes: bool)
    ensures
        yes == has_substring(text@, part@),
{
    let text_chars = chars_of(text);
    let part_chars = chars_of(part);
    if part_chars.len() > text_chars.len() {
        return false;
    }
    let last = text_chars.len() - part_chars.len();
    let mut at: usize = 0;
    while at <= last
        invariant
            text_chars@ == text@,
            part_chars@ == part@,
            last == text_chars.len() - part_chars.len(),
            at <= last + 1,
            forall|j: int| 0 <= j < at ==> !#[trigger] stands_at(text@, part@, j),
        decreases last + 1 - at,
    {
        let mut k: usize = 0;
        while k < part_chars.len() && text_chars[at + k] == part_chars[k]
            invariant
                text_chars@ == text@,
                part_chars@ == part@,
                at + part_chars.len() <= text_chars.len(),
                k <= part_chars.len(),
                forall|j: int| 0 <= j < k ==> text@[at + j] == part@[j],
            decreases part_chars.len() - k,
        {
            k += 1;
        }
        if k == part_chars.len() {
            assert(text@.subrange(at as int, at + part@.len()) =~= part@);
            assert(stands_at(text@, part@, at as int));
            return true;
        }
        assert(text@.subrange(at as int, at + part@.len())[k as int] != part@[k as int]);
        if at == last {
            assert forall|j: int| !#[trigger] stands_at(text@, part@, j) by {
                assert(j < at || j == at || j > at);
            }
            return false;
        }
        at += 1;
    }
    false
}

/// The words of a text are all of its longest runs without a break, from left to right.
pub proof fn words_are_the_longest_runs(text: Seq<char>, breaks: Breaks) -> (runs: Seq<(int, int)>)
    ensures
        runs.len() == words(text, breaks).len(),
        forall|i: int|
            0 <= i < runs.len() ==> is_word_at(text, breaks, (#[trigger] runs[i]).0, runs[i].1)
                && words(text, breaks)[i] == text.subrange(runs[i].0, runs[i].1),
        forall|i: int, j: int|
            0 <= i < j < runs.len() ==> (#[trigger] runs[i]).1 <= (#[trigger] runs[j]).0,
        forall|from: int, to: int| #[trigger]
            is_word_at(text, breaks, from, to) ==> runs.contains((from, to)),
        text.len() > 0 && !breaks.splits(text.last()) ==> runs.len() > 0 && runs.last().1
            == text.len(),
    decreases text.len(),
{
    if text.len() == 0 {
        Seq::empty()
    } else {
        let n = text.len() as int;
        let start = text.drop_last();
        let before = words_are_the_longest_runs(start, breaks);
        assert forall|from: int, to: int| 0 <= from <= to < n implies #[trigger] start.subrange(
            from,
            to,
        ) == text.subrange(from, to) by {
            assert(start.subrange(from, to) =~= text.subrange(from, to));
        }
        if breaks.splits(text.last()) {
            assert forall|i: int| 0 <= i < before.len() implies is_word_at(
                text,
                breaks,
                (#[trigger] before[i]).0,
                before[i].1,
            ) by {
                lemma_word_of_start(text, breaks, before[i].0, before[i].1);
            }
            assert forall|from: int, to: int| #[trigger]
                is_word_at(text, breaks, from, to) implies before.contains((from, to)) by {
                if to == n {
                    assert(!breaks.splits(text[n - 1]));
                }
                lemma_word_in_start(text, breaks, from, to);
            }
            before
        } else if n == 1 || breaks.splits(text[n - 2]) {
            let runs = before.push((n - 1, n));
            assert(is_word_at(text, breaks, n - 1, n));
            assert(text.subrange(n - 1, n) =~= seq![text.last()]);
            assert forall|i: int| 0 <= i < runs.len() implies is_word_at(
                text,
                breaks,
                (#[trigger] runs[i]).0,
                runs[i].1,
            ) && words(text, breaks)[i] == text.subrange(runs[i].0, runs[i].1) by {
                if i < before.len() {
                    assert(runs[i] == before[i]);
                    assert(!breaks.splits(start[before[i].1 - 1]));
                    lemma_word_of_start(text, breaks, before[i].0, before[i].1);
                }
            }
            assert forall|from: int, to: int| #[trigger]
                is_word_at(text, breaks, from, to) implies runs.contains((from, to)) by {
                assert(!breaks.splits(text[to - 1]));
                if to == n {
                    if from < n - 1 {
                        assert(!breaks.splits(text[n - 2]));
                    }
                    assert(runs[runs.len() - 1] == (from, to));
                } else {
                    lemma_word_in_start(text, breaks, from, to);
                    let i = choose|i: int| 0 <= i < before.len() && before[i] == (from, to);
                    assert(runs[i] == (from, to));
                }
            }
            runs
        } else {
            let last = before.last();
            let runs = before.drop_last().push((last.0, n));
            assert(start.last() == text[n - 2]);
            assert(is_word_at(start, breaks, last.0, last.1));
            assert(is_word_at(text, breaks, last.0, n)) by {
                assert forall|i: int| last.0 <= i < n implies !breaks.splits(
                    #[trigger] text[i],
                ) by {
                    if i < n - 1 {
                        assert(!breaks.splits(start[i]));
                    }
                }
            }
            assert(text.subrange(last.0, n) =~= start.subrange(last.0, n - 1).push(text.last()));
            assert forall|i: int| 0 <= i < runs.len() implies is_word_at(
                text,
                breaks,
                (#[trigger] runs[i]).0,
                runs[i].1,
            ) && words(text, breaks)[i] == text.subrange(runs[i].0, runs[i].1) by {
                if i < before.len() - 1 {
                    assert(runs[i] == before[i]);
                    assert(before[i].1 <= before[before.len() - 1].0);
                    lemma_word_of_start(text, breaks, before[i].0, before[i].1);
                }
            }
            assert forall|from: int, to: int| #[trigger]
                is_word_at(text, breaks, from, to) implies runs.contains((from, to)) by {
                if to == n {
                    if from == n - 1 {
                        assert(breaks.splits(text[from - 1]));
                    }
                    assert(is_word_at(start, breaks, from, n - 1)) by {
                        assert forall|i: int| from <= i < n - 1 implies !breaks.splits(
                            #[trigger] start[i],
                        ) by {
                            assert(!breaks.splits(text[i]));
                        }
                    }
                    let i = choose|i: int| 0 <= i < before.len() && before[i] == (from, n - 1);
                    if i < before.len() - 1 {
                        assert(before[i].1 <= before[before.len() - 1].0);
                    }
                    assert(runs[runs.len() - 1] == (from, to));
                } else {
                    lemma_word_in_start(text, breaks, from, to);
                    let i = choose|i: int| 0 <= i < before.len() && before[i] == (from, to);
                    assert(to != n - 1);
                    assert(runs[i] == (from, to));
                }
            }
            runs
        }
    }
}

/// A word of a text without its last character is a word of the text, unless the text goes on
/// with it.
proof fn lemma_word_of_start(text: Seq<char>, breaks: Breaks, from: int, to: int)
    requires
        text.len() > 0,
        is_word_at(text.drop_last(), breaks, from, to),
        to < text.len() - 1 || breaks.splits(text.last()),
    ensures
        is_word_at(text, breaks, from, to),
{
    let start = text.drop_last();
    assert forall|i: int| from <= i < to implies !breaks.splits(#[trigger] text[i]) by {
        assert(!breaks.splits(start[i]));
    }
    if to < start.len() {
        assert(breaks.splits(start[to]));
    }
    if from > 0 {
        assert(breaks.splits(start[from - 1]));
    }
}

/// A word that ends before the last character is a word of the text without it.
proof fn lemma_word_in_start(text: Seq<char>, breaks: Breaks, from: int, to: int)
    requires
        is_word_at(text, breaks, from, to),
        to < text.len(),
    ensures
        is_word_at(text.drop_last(), breaks, from, to),
{
    let start = text.drop_last();
    assert forall|i: int| from <= i < to implies !breaks.splits(#[trigger] start[i]) by {
        assert(!breaks.splits(text[i]));
    }
}

/// Whether no character of a text is a break.
pub open spec fn is_unbroken(text: Seq<char>, breaks: Breaks) -> bool {
    forall|i: int| 0 <= i < text.len() ==> !breaks.splits(#[trigger] text[i])
}

/// A text without a break is its only word, where it is not empty.
pub proof fn lemma_words_of_unbroken(text: Seq<char>, breaks: Breaks)
    requires
        is_unbroken(text, breaks),
    ensures
        words(text, breaks) == (if text.len() == 0 {
            Seq::<Seq<char>>::empty()
        } else {
            seq![text]
        }),
    decreases text.len(),
{
    if text.len() > 0 {
        let start = text.drop_last();
        assert forall|i: int| 0 <= i < start.len() implies !breaks.splits(#[trigger] start[i]) by {
            assert(start[i] == text[i]);
        }
        lemma_words_of_unbroken(start, breaks);
        assert(!breaks.splits(text[text.len() - 1]));
        if text.len() == 1 {
            assert(words(text, breaks) =~= seq![seq![text.last()]]);
            assert(seq![text.last()] =~= text);
        } else {
            assert(!breaks.splits(text[text.len() - 2]));
            assert(start.push(text.last()) =~= text);
            assert(words(text, breaks) =~= seq![text]);
        }
    }
}

/// No word of a text holds a break.
pub proof fn lemma_words_are_unbroken(text: Seq<char>, breaks: Breaks)
    ensures
        forall|i: int|
            0 <= i < words(text, breaks).len() ==> is_unbroken(
                #[trigger] words(text, breaks)[i],
                breaks,
            ),
{
    let runs = words_are_the_longest_runs(text, breaks);
    assert forall|i: int| 0 <= i < words(text, breaks).len() implies is_unbroken(
        #[trigger] words(text, breaks)[i],
        breaks,
    ) by {
        let word = words(text, breaks)[i];
        assert(is_word_at(text, breaks, runs[i].0, runs[i].1));
        assert forall|j: int| 0 <= j < word.len() implies !breaks.splits(#[trigger] word[j]) by {
            assert(word[j] == text[runs[i].0 + j]);
        }
    }
}

/// Unbroken parts with an unbroken separator between them make up an unbroken text.
pub proof fn lemma_joined_is_unbroken(
    parts: Seq<Seq<char>>,
    separator: Seq<char>,
    breaks: Breaks,
)
    requires
        is_unbroken(separator, breaks),
        forall|i: int| 0 <= i < parts.len() ==> is_unbroken(#[trigger] parts[i], breaks),
    ensures
        is_unbroken(joined(parts, separator), breaks),
    decreases parts.len(),
{
    if parts.len() == 1 {
        assert(is_unbroken(parts[0], breaks));
    } else if parts.len() > 1 {
        let front = parts.drop_last();
        assert forall|i: int| 0 <= i < front.len() implies is_unbroken(
            #[trigger] front[i],
            breaks,
        ) by {
            assert(front[i] == parts[i]);
        }
        lemma_joined_is_unbroken(front, separator, breaks);
        let head = joined(front, separator);
        assert(is_unbroken(parts[parts.len() - 1], breaks));
        let whole = joined(parts, separator);
        assert forall|i: int| 0 <= i < whole.len() implies !breaks.splits(#[trigger] whole[i]) by {
            if i < head.len() {
                assert(whole[i] == head[i]);
            } else if i < head.len() + separator.len() {
                assert(whole[i] == separator[i - head.len()]);
            } else {
                assert(whole[i] == parts.last()[i - head.len() - separator.len()]);
            }
        }
    }
}

/// The words of two texts with a break between them are those of the first, then those of the
/// second.
pub proof fn words_of_both_sides(left: Seq<char>, c: char, right: Seq<char>, breaks: Breaks)
    requires
        breaks.splits(c),
    ensures
        words(left.push(c) + right, breaks) == words(left, breaks) + words(right, breaks),
    decreases right.len(),
{
    let whole = left.push(c) + right;
    if right.len() == 0 {
        assert(whole =~= left.push(c));
        assert(whole.drop_last() =~= left);
        assert(words(right, breaks) =~= Seq::empty());
    } else {
        let rest = right.drop_last();
        words_of_both_sides(left, c, rest, breaks);
        assert(whole.drop_last() =~= left.push(c) + rest);
        assert(whole.last() == right.last());
        let before = words(left, breaks);
        let after = words(rest, breaks);
        if breaks.splits(right.last()) {
        } else if right.len() == 1 {
            assert(whole[whole.len() - 2] == c);
            assert(rest =~= Seq::empty());
            assert(words(whole, breaks) =~= before + words(right, breaks));
        } else {
            assert(whole[whole.len() - 2] == right[right.len() - 2]);
            if !breaks.splits(right[right.len() - 2]) {
                let runs = words_are_the_longest_runs(rest, breaks);
                assert(rest.last() == right[right.len() - 2]);
                assert(after.len() > 0);
            }
            assert(words(whole, breaks) =~= before + words(right, breaks));
        }
    }
}

/// Joining one part gives that part; joining two rows of parts puts the separator between
/// what each of them gives.
pub proof fn joined_of_both(
    first: Seq<Seq<char>>,
    second: Seq<Seq<char>>,
    separator: Seq<char>,
)
    requires
        first.len() > 0,
        second.len() > 0,
    ensures
        first.len() == 1 ==> joined(first, separator) == first[0],
        joined(first + second, separator) == joined(first, separator) + separator + joined(
            second,
            separator,
        ),
    decreases second.len(),
{
    let all = first + second;
    assert(all.last() == second.last());
    if second.len() == 1 {
        assert(all.drop_last() =~= first);
    } else {
        let rest = second.drop_last();
        joined_of_both(first, rest, separator);
        assert(all.drop_last() =~= first + rest);
        assert(joined(all, separator) =~= joined(first, separator) + separator + joined(
            second,
            separator,
        ));
    }
}

/// A list of strings is seen string by string.
pub proof fn texts_are_the_strings(list: Seq<String>)
    ensures
        texts(list).len() == list.len(),
        forall|i: int| 0 <= i < list.len() ==> #[trigger] texts(list)[i] == list[i]@,
{
}

} // verus!
